//! The order of names and paths: byte by byte, then name by name.
use vstd::prelude::*;
use crate::path::byte_strings;

verus! {

/// How one value stands to another.
#[derive(Clone, Copy, Debug, PartialEq, Eq, Structural)]
pub enum Rank {
    Below,
    Same,
    Above,
}

/// Whether a name comes before another: at the first byte in which they
/// differ, or as a beginning of it.
pub open spec fn name_lt(a: Seq<u8>, b: Seq<u8>) -> bool
    decreases a.len(),
{
    b.len() > 0 && (a.len() == 0 || a[0] < b[0] || (a[0] == b[0] && name_lt(a.skip(1), b.skip(1))))
}

/// Whether a path comes before another: at the first name in which they
/// differ, or as a directory above it.
pub open spec fn path_lt(a: Seq<Seq<u8>>, b: Seq<Seq<u8>>) -> bool
    decreases a.len(),
{
    b.len() > 0 && (a.len() == 0 || name_lt(a[0], b[0]) || (a[0] == b[0] && path_lt(
        a.skip(1),
        b.skip(1),
    )))
}

pub proof fn lemma_name_order(a: Seq<u8>, b: Seq<u8>)
    ensures
        a != b ==> name_lt(a, b) || name_lt(b, a),
        !(name_lt(a, b) && name_lt(b, a)),
        !name_lt(a, a),
    decreases a.len(),
{
    if a.len() > 0 && b.len() > 0 {
        lemma_name_order(a.skip(1), b.skip(1));
        if a[0] == b[0] && a.skip(1) == b.skip(1) {
            assert(a =~= seq![a[0]] + a.skip(1));
            assert(b =~= seq![b[0]] + b.skip(1));
        }
    } else if a.len() == 0 && b.len() == 0 {
        assert(a =~= b);
    }
    if a.len() > 0 {
        lemma_name_self(a);
    }
}

proof fn lemma_name_self(a: Seq<u8>)
    ensures
        !name_lt(a, a),
    decreases a.len(),
{
    if a.len() > 0 {
        lemma_name_self(a.skip(1));
    }
}

pub proof fn lemma_name_transitive(a: Seq<u8>, b: Seq<u8>, c: Seq<u8>)
    requires
        name_lt(a, b),
        name_lt(b, c),
    ensures
        name_lt(a, c),
    decreases a.len(),
{
    if a.len() > 0 && a[0] == b[0] && b[0] == c[0] {
        lemma_name_transitive(a.skip(1), b.skip(1), c.skip(1));
    }
}

proof fn lemma_path_self(a: Seq<Seq<u8>>)
    ensures
        !path_lt(a, a),
    decreases a.len(),
{
    if a.len() > 0 {
        lemma_name_self(a[0]);
        lemma_path_self(a.skip(1));
    }
}

/// Of two different paths exactly one comes before the other.
pub proof fn lemma_path_order(a: Seq<Seq<u8>>, b: Seq<Seq<u8>>)
    ensures
        a != b ==> path_lt(a, b) || path_lt(b, a),
        !(path_lt(a, b) && path_lt(b, a)),
        !path_lt(a, a),
    decreases a.len(),
{
    if a.len() > 0 && b.len() > 0 {
        lemma_path_order(a.skip(1), b.skip(1));
        lemma_name_order(a[0], b[0]);
        lemma_name_self(a[0]);
        if a[0] == b[0] && a.skip(1) == b.skip(1) {
            assert(a =~= seq![a[0]] + a.skip(1));
            assert(b =~= seq![b[0]] + b.skip(1));
        }
    } else if a.len() == 0 && b.len() == 0 {
        assert(a =~= b);
    }
    lemma_path_self(a);
}

/// The order of paths is transitive.
pub proof fn lemma_path_transitive(a: Seq<Seq<u8>>, b: Seq<Seq<u8>>, c: Seq<Seq<u8>>)
    requires
        path_lt(a, b),
        path_lt(b, c),
    ensures
        path_lt(a, c),
    decreases a.len(),
{
    if a.len() > 0 {
        if name_lt(a[0], b[0]) && name_lt(b[0], c[0]) {
            lemma_name_transitive(a[0], b[0], c[0]);
        } else if a[0] == b[0] && b[0] == c[0] {
            lemma_path_transitive(a.skip(1), b.skip(1), c.skip(1));
        }
    }
}

/// How one name stands to another.
pub fn rank_names(a: &[u8], b: &[u8]) -> (r: Rank)
    ensures
        r == Rank::Below <==> name_lt(a@, b@),
        r == Rank::Same <==> a@ == b@,
        r == Rank::Above <==> name_lt(b@, a@),
{
    let mut i: usize = 0;
    proof {
        lemma_name_order(a@, b@);
        assert(a@.skip(0) =~= a@);
        assert(b@.skip(0) =~= b@);
    }
    while i < a.len() && i < b.len()
        invariant
            i <= a@.len(),
            i <= b@.len(),
            forall|j: int| 0 <= j < i ==> a@[j] == b@[j],
            name_lt(a@, b@) == name_lt(a@.skip(i as int), b@.skip(i as int)),
            name_lt(b@, a@) == name_lt(b@.skip(i as int), a@.skip(i as int)),
            !(name_lt(a@, b@) && name_lt(b@, a@)),
            a@ == b@ ==> !name_lt(a@, b@) && !name_lt(b@, a@),
        decreases a.len() - i,
    {
        assert(a@.skip(i as int).skip(1) =~= a@.skip(i + 1));
        assert(b@.skip(i as int).skip(1) =~= b@.skip(i + 1));
        if a[i] < b[i] {
            return Rank::Below;
        }
        if b[i] < a[i] {
            return Rank::Above;
        }
        i += 1;
    }
    if i < b.len() {
        Rank::Below
    } else if i < a.len() {
        Rank::Above
    } else {
        assert(a@ =~= b@);
        Rank::Same
    }
}

/// How one path stands to another.
pub fn rank_paths(a: &Vec<Vec<u8>>, b: &Vec<Vec<u8>>) -> (r: Rank)
    ensures
        r == Rank::Below <==> path_lt(byte_strings(a@), byte_strings(b@)),
        r == Rank::Same <==> byte_strings(a@) == byte_strings(b@),
        r == Rank::Above <==> path_lt(byte_strings(b@), byte_strings(a@)),
{
    let ghost p = byte_strings(a@);
    let ghost q = byte_strings(b@);
    let mut i: usize = 0;
    proof {
        lemma_path_order(p, q);
        assert(p.skip(0) =~= p);
        assert(q.skip(0) =~= q);
    }
    while i < a.len() && i < b.len()
        invariant
            p == byte_strings(a@),
            q == byte_strings(b@),
            i <= a@.len(),
            i <= b@.len(),
            forall|j: int| 0 <= j < i ==> p[j] == q[j],
            path_lt(p, q) == path_lt(p.skip(i as int), q.skip(i as int)),
            path_lt(q, p) == path_lt(q.skip(i as int), p.skip(i as int)),
            !(path_lt(p, q) && path_lt(q, p)),
            p == q ==> !path_lt(p, q) && !path_lt(q, p),
        decreases a.len() - i,
    {
        assert(p.skip(i as int).skip(1) =~= p.skip(i + 1));
        assert(q.skip(i as int).skip(1) =~= q.skip(i + 1));
        assert(p[i as int] == a@[i as int]@);
        assert(q[i as int] == b@[i as int]@);
        proof {
            lemma_name_order(p[i as int], q[i as int]);
        }
        match rank_names(a[i].as_slice(), b[i].as_slice()) {
            Rank::Below => {
                return Rank::Below;
            },
            Rank::Above => {
                return Rank::Above;
            },
            Rank::Same => {},
        }
        i += 1;
    }
    if i < b.len() {
        Rank::Below
    } else if i < a.len() {
        Rank::Above
    } else {
        assert(p =~= q);
        Rank::Same
    }
}

/// A copy of a list of names.
pub fn copy_names(names: &Vec<Vec<u8>>) -> (r: Vec<Vec<u8>>)
    ensures
        byte_strings(r@) == byte_strings(names@),
{
    let mut out: Vec<Vec<u8>> = Vec::new();
    let mut i: usize = 0;
    while i < names.len()
        invariant
            i <= names@.len(),
            byte_strings(out@) == byte_strings(names@.take(i as int)),
        decreases names.len() - i,
    {
        let name = vstd::slice::slice_to_vec(names[i].as_slice());
        let ghost before = out@;
        out.push(name);
        i += 1;
        assert(byte_strings(out@) =~= byte_strings(before).push(name@));
        assert(byte_strings(names@.take(i as int)) =~= byte_strings(names@.take(i - 1)).push(
            names@[i - 1]@,
        ));
    }
    assert(names@.take(i as int) =~= names@);
    out
}

} // verus!
