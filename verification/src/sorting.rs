//! Stable orders of short lists, as the positions of their items.
use vstd::prelude::*;
use vstd::utf8::*;
use crate::order::{lemma_name_order, lemma_name_transitive, name_lt, rank_names, Rank};

verus! {

/// Positions below a number that stand in an order still do with that number put
/// in where it belongs, and are then all those up to it.
proof fn lemma_inserted(
    order: Seq<usize>,
    p: int,
    k: usize,
    stands_before: spec_fn(int, int) -> bool,
)
    requires
        0 <= p <= order.len(),
        k < usize::MAX,
        forall|i: int| 0 <= i < order.len() ==> (#[trigger] order[i]) < k,
        forall|i: int, j: int|
            0 <= i < j < order.len() ==> stands_before(
                #[trigger] order[i] as int,
                #[trigger] order[j] as int,
            ),
        forall|m: usize| 0 <= m < k ==> #[trigger] order.contains(m),
        forall|i: int| 0 <= i < p ==> stands_before(#[trigger] order[i] as int, k as int),
        forall|i: int|
            p <= i < order.len() ==> stands_before(k as int, #[trigger] order[i] as int),
    ensures
        forall|i: int|
            0 <= i < order.insert(p, k).len() ==> (#[trigger] order.insert(p, k)[i]) < k + 1,
        forall|i: int, j: int|
            0 <= i < j < order.insert(p, k).len() ==> stands_before(
                #[trigger] order.insert(p, k)[i] as int,
                #[trigger] order.insert(p, k)[j] as int,
            ),
        forall|m: usize| 0 <= m < k + 1 ==> #[trigger] order.insert(p, k).contains(m),
{
    let after = order.insert(p, k);
    assert forall|i: int, j: int| 0 <= i < j < after.len() implies stands_before(
        #[trigger] after[i] as int,
        #[trigger] after[j] as int,
    ) by {
        if i < p {
            assert(after[i] == order[i]);
        } else if i > p {
            assert(after[i] == order[i - 1]);
        }
        if j < p {
            assert(after[j] == order[j]);
        } else if j > p {
            assert(after[j] == order[j - 1]);
        }
    }
    assert forall|i: int| 0 <= i < after.len() implies (#[trigger] after[i]) < k + 1 by {
        if i < p {
            assert(after[i] == order[i]);
        } else if i > p {
            assert(after[i] == order[i - 1]);
        }
    }
    assert forall|m: usize| 0 <= m < k + 1 implies #[trigger] after.contains(m) by {
        if m == k {
            assert(after[p] == k);
        } else {
            assert(order.contains(m));
            let i = choose|i: int| 0 <= i < order.len() && order[i] == m;
            if i < p {
                assert(after[i] == m);
            } else {
                assert(after[i + 1] == m);
            }
        }
    }
}

/// Whether the text at a position stands before that at another in a stable
/// order.
pub open spec fn text_before(keys: Seq<String>, i: int, j: int) -> bool {
    let a = encode_utf8(keys[i]@);
    let b = encode_utf8(keys[j]@);
    name_lt(a, b) || (a == b && i < j)
}

/// Whether positions are those of a list in the stable order of its texts.
pub open spec fn is_text_order(keys: Seq<String>, order: Seq<usize>) -> bool {
    &&& order.len() == keys.len()
    &&& forall|i: int| 0 <= i < order.len() ==> (#[trigger] order[i]) < keys.len()
    &&& forall|i: int, j: int|
        0 <= i < j < order.len() ==> text_before(
            keys,
            #[trigger] order[i] as int,
            #[trigger] order[j] as int,
        )
    &&& forall|k: usize| 0 <= k < keys.len() ==> #[trigger] order.contains(k)
}

/// The positions of texts in their stable order.
pub fn text_order(keys: &Vec<String>) -> (order: Vec<usize>)
    ensures
        is_text_order(keys@, order@),
{
    let mut order: Vec<usize> = Vec::new();
    let mut k: usize = 0;
    while k < keys.len()
        invariant
            k <= keys@.len(),
            order@.len() == k,
            forall|i: int| 0 <= i < order@.len() ==> (#[trigger] order@[i]) < k,
            forall|i: int, j: int|
                0 <= i < j < order@.len() ==> text_before(
                    keys@,
                    #[trigger] order@[i] as int,
                    #[trigger] order@[j] as int,
                ),
            forall|m: usize| 0 <= m < k ==> #[trigger] order@.contains(m),
        decreases keys.len() - k,
    {
        let mut p: usize = order.len();
        let ghost key = encode_utf8(keys@[k as int]@);
        while p > 0 && rank_names(
            keys[k].as_str().as_bytes(),
            keys[order[p - 1]].as_str().as_bytes(),
        ) == Rank::Below
            invariant
                p <= order@.len(),
                k < keys@.len(),
                key == encode_utf8(keys@[k as int]@),
                forall|i: int| 0 <= i < order@.len() ==> (#[trigger] order@[i]) < k,
                forall|q: int|
                    p <= q < order@.len() ==> name_lt(
                        key,
                        encode_utf8(keys@[#[trigger] order@[q] as int]@),
                    ),
            decreases p,
        {
            p -= 1;
        }
        let ghost before = order@;
        proof {
            assert forall|q: int| 0 <= q < p implies text_before(
                keys@,
                #[trigger] before[q] as int,
                k as int,
            ) by {
                let last = encode_utf8(keys@[before[p - 1] as int]@);
                lemma_name_order(key, last);
                if q < p - 1 {
                    assert(text_before(keys@, before[q] as int, before[p - 1] as int));
                    let mine = encode_utf8(keys@[before[q] as int]@);
                    if name_lt(mine, last) && name_lt(last, key) {
                        lemma_name_transitive(mine, last, key);
                    }
                }
            }
        }
        order.insert(p, k);
        proof {
            lemma_inserted(before, p as int, k, |i: int, j: int| text_before(keys@, i, j));
        }
        k += 1;
    }
    order
}

/// Whether the number at a position stands before that at another in a stable
/// order.
pub open spec fn number_before(keys: Seq<i64>, i: int, j: int) -> bool {
    keys[i] < keys[j] || (keys[i] == keys[j] && i < j)
}

/// Whether positions are those of a list in the stable order of its numbers.
pub open spec fn is_number_order(keys: Seq<i64>, order: Seq<usize>) -> bool {
    &&& order.len() == keys.len()
    &&& forall|i: int| 0 <= i < order.len() ==> (#[trigger] order[i]) < keys.len()
    &&& forall|i: int, j: int|
        0 <= i < j < order.len() ==> number_before(
            keys,
            #[trigger] order[i] as int,
            #[trigger] order[j] as int,
        )
    &&& forall|k: usize| 0 <= k < keys.len() ==> #[trigger] order.contains(k)
}

/// The positions of numbers in their stable order.
pub fn number_order(keys: &Vec<i64>) -> (order: Vec<usize>)
    ensures
        is_number_order(keys@, order@),
{
    let mut order: Vec<usize> = Vec::new();
    let mut k: usize = 0;
    while k < keys.len()
        invariant
            k <= keys@.len(),
            order@.len() == k,
            forall|i: int| 0 <= i < order@.len() ==> (#[trigger] order@[i]) < k,
            forall|i: int, j: int|
                0 <= i < j < order@.len() ==> number_before(
                    keys@,
                    #[trigger] order@[i] as int,
                    #[trigger] order@[j] as int,
                ),
            forall|m: usize| 0 <= m < k ==> #[trigger] order@.contains(m),
        decreases keys.len() - k,
    {
        let mut p: usize = order.len();
        while p > 0 && keys[k] < keys[order[p - 1]]
            invariant
                p <= order@.len(),
                k < keys@.len(),
                forall|i: int| 0 <= i < order@.len() ==> (#[trigger] order@[i]) < k,
                forall|q: int|
                    p <= q < order@.len() ==> keys@[k as int] < keys@[#[trigger] order@[q] as int],
            decreases p,
        {
            p -= 1;
        }
        let ghost before = order@;
        proof {
            assert forall|q: int| 0 <= q < p implies number_before(
                keys@,
                #[trigger] before[q] as int,
                k as int,
            ) by {
                if q < p - 1 {
                    assert(number_before(keys@, before[q] as int, before[p - 1] as int));
                }
            }
        }
        order.insert(p, k);
        proof {
            lemma_inserted(before, p as int, k, |i: int, j: int| number_before(keys@, i, j));
        }
        k += 1;
    }
    order
}

} // verus!
