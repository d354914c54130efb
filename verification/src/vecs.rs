//! Lists of values that are moved rather than copied.
use vstd::prelude::*;

verus! {

/// A list back to front.
pub fn reversed<T>(list: Vec<T>) -> (out: Vec<T>)
    ensures
        out@ == list@.reverse(),
{
    let mut list = list;
    let ghost whole = list@;
    let mut out: Vec<T> = Vec::new();
    while list.len() > 0
        invariant
            list@ == whole.take(list@.len() as int),
            list@.len() <= whole.len(),
            out@ == whole.skip(list@.len() as int).reverse(),
        decreases list.len(),
    {
        let ghost n = list@.len();
        if let Some(item) = list.pop() {
            out.push(item);
            assert(whole.skip(n - 1).reverse() =~= whole.skip(n as int).reverse().push(
                whole[n - 1],
            ));
            assert(whole.take(n as int).drop_last() =~= whole.take(n - 1));
        }
    }
    assert(whole.skip(0) =~= whole);
    out
}

/// A number of items as it goes on the wire; more than fits counts as the
/// most that does.
pub open spec fn count_of(n: nat) -> u32 {
    if n <= u32::MAX { n as u32 } else { u32::MAX }
}

/// A number of items as it goes on the wire.
pub fn count(n: usize) -> (r: u32)
    ensures
        r == count_of(n as nat),
{
    if n <= 0xffff_ffff { n as u32 } else { 0xffff_ffff }
}

/// A list of which everything is kept is kept as it is.
pub proof fn lemma_filter_all<T>(s: Seq<T>, keep: spec_fn(T) -> bool)
    requires
        forall|i: int| 0 <= i < s.len() ==> keep(#[trigger] s[i]),
    ensures
        s.filter(keep) == s,
    decreases s.len(),
{
    reveal(Seq::filter);
    if s.len() > 0 {
        assert forall|i: int| 0 <= i < s.drop_last().len() implies keep(
            #[trigger] s.drop_last()[i],
        ) by {
            assert(s.drop_last()[i] == s[i]);
        }
        lemma_filter_all(s.drop_last(), keep);
        assert(keep(s[s.len() - 1]));
        assert(s =~= s.drop_last().push(s.last()));
    }
}

/// A list of which everything but one is kept is the list without that one.
pub proof fn lemma_filter_but_one<T>(s: Seq<T>, keep: spec_fn(T) -> bool, k: int)
    requires
        0 <= k < s.len(),
        !keep(s[k]),
        forall|i: int| 0 <= i < s.len() && i != k ==> keep(#[trigger] s[i]),
    ensures
        s.filter(keep) == s.remove(k),
    decreases s.len(),
{
    reveal(Seq::filter);
    assert forall|i: int| 0 <= i < s.drop_last().len() && i != k implies keep(
        #[trigger] s.drop_last()[i],
    ) by {
        assert(s.drop_last()[i] == s[i]);
    }
    if k == s.len() - 1 {
        lemma_filter_all(s.drop_last(), keep);
        assert(s.remove(k) =~= s.drop_last());
    } else {
        assert(s.drop_last()[k] == s[k]);
        lemma_filter_but_one(s.drop_last(), keep, k);
        assert(keep(s[s.len() - 1]));
        assert(s.remove(k) =~= s.drop_last().remove(k).push(s.last()));
    }
}

} // verus!
