//! Ordering records by a numeric id, keeping records with equal ids in the
//! order they came.
use vstd::prelude::*;
use crate::naming::lemma_filter_push;

verus! {

/// A record that carries a numeric id.
pub trait Identified {
    /// The record's id.
    spec fn key_id(&self) -> u64;

    /// Reads the record's id.
    fn id_key(&self) -> (r: u64)
        ensures
            r == self.key_id(),
    ;
}

/// The entries are in increasing order of id.
pub open spec fn sorted_by_id<T: Identified>(s: Seq<T>) -> bool {
    forall|i: int, j: int| 0 <= i < j < s.len() ==> s[i].key_id() <= s[j].key_id()
}

/// The entries with id `k`, in their order.
pub open spec fn entries_with_id<T: Identified>(s: Seq<T>, k: u64) -> Seq<T> {
    s.filter(has_id::<T>(k))
}

/// The entry has id `k`.
pub open spec fn has_id<T: Identified>(k: u64) -> spec_fn(T) -> bool {
    |e: T| e.key_id() == k
}

/// Filtering keeps nothing when nothing satisfies the predicate.
proof fn lemma_filter_none<A>(s: Seq<A>, p: spec_fn(A) -> bool)
    requires
        forall|j: int| 0 <= j < s.len() ==> !p(#[trigger] s[j]),
    ensures
        s.filter(p) == Seq::<A>::empty(),
    decreases s.len(),
{
    reveal(Seq::filter);
    if s.len() > 0 {
        lemma_filter_none(s.drop_last(), p);
    }
}

/// Filtering after an insertion.
proof fn lemma_filter_insert<A>(s: Seq<A>, pos: int, x: A, p: spec_fn(A) -> bool)
    requires
        0 <= pos <= s.len(),
        p(x) ==> forall|j: int| pos <= j < s.len() ==> !p(#[trigger] s[j]),
    ensures
        s.insert(pos, x).filter(p) == (if p(x) {
            s.filter(p).push(x)
        } else {
            s.filter(p)
        }),
{
    let a = s.take(pos);
    let b = s.skip(pos);
    assert(s =~= a + b);
    assert(s.insert(pos, x) =~= a + seq![x] + b);
    Seq::filter_distributes_over_add(a, b, p);
    Seq::filter_distributes_over_add(a + seq![x], b, p);
    Seq::filter_distributes_over_add(a, seq![x], p);
    lemma_filter_push(Seq::<A>::empty(), x, p);
    assert(seq![x] =~= Seq::<A>::empty().push(x));
    assert(Seq::<A>::empty().filter(p) =~= Seq::<A>::empty()) by {
        reveal(Seq::filter);
    }
    if p(x) {
        assert forall|j: int| 0 <= j < b.len() implies !p(#[trigger] b[j]) by {
            assert(b[j] == s[pos + j]);
        }
        lemma_filter_none(b, p);
        assert(a.filter(p) + seq![x] =~= (a.filter(p) + b.filter(p)).push(x));
    } else {
        assert(a.filter(p) + Seq::<A>::empty() =~= a.filter(p));
    }
}

/// Puts the entries in increasing order of id, keeping entries with the same
/// id in the order they came (a stable sort by id).
#[verifier::rlimit(40)]
pub fn sort_by_id<T: Identified>(entries: Vec<T>) -> (r: Vec<T>)
    ensures
        sorted_by_id(r@),
        forall|k: u64| entries_with_id(r@, k) == entries_with_id(entries@, k),
{
    broadcast use vstd::std_specs::vec::group_vec_axioms;

    let ghost input = entries@;
    let mut out: Vec<T> = Vec::new();
    proof {
        assert forall|k: u64| entries_with_id(out@, k) == entries_with_id(input.take(0), k) by {
            assert(input.take(0) =~= Seq::<T>::empty());
            assert(out@ =~= Seq::<T>::empty());
        }
    }
    for e in it: entries
        invariant
            it.seq() == input,
            sorted_by_id(out@),
            forall|k: u64| entries_with_id(out@, k) == entries_with_id(input.take(it.index() as int), k),
    {
        let ghost i = it.index() as int;
        let key = e.id_key();
        let mut pos: usize = 0;
        while pos < out.len() && out[pos].id_key() <= key
            invariant
                pos <= out.len(),
                forall|j: int| 0 <= j < pos ==> (#[trigger] out@[j]).key_id() <= key,
            decreases out.len() - pos,
        {
            pos = pos + 1;
        }
        let ghost before = out@;
        proof {
            assert forall|j: int| pos <= j < before.len() implies (#[trigger] before[j]).key_id() > key by {
                if j > pos {
                    assert(before[pos as int].key_id() <= before[j].key_id());
                }
            }
        }
        out.insert(pos, e);
        proof {
            assert(input[i] == e);
            assert(input.take(i + 1) =~= input.take(i).push(e));
            assert forall|k: u64| entries_with_id(out@, k) == entries_with_id(input.take(i + 1), k) by {
                let p = has_id::<T>(k);
                lemma_filter_insert(before, pos as int, e, p);
                lemma_filter_push(input.take(i), e, p);
                assert(out@ == before.insert(pos as int, e));
                assert(entries_with_id(before, k) == entries_with_id(input.take(i), k));
                assert(entries_with_id(out@, k) == out@.filter(p));
                if p(e) {
                    assert(out@.filter(p) == before.filter(p).push(e));
                } else {
                    assert(out@.filter(p) == before.filter(p));
                }
            }
            assert forall|a: int, b: int| 0 <= a < b < out@.len() implies out@[a].key_id() <= out@[b].key_id() by {
                if b < pos {
                    assert(out@[a] == before[a] && out@[b] == before[b]);
                } else if b == pos {
                    assert(out@[a] == before[a]);
                } else if a < pos {
                    assert(out@[a] == before[a] && out@[b] == before[b - 1]);
                } else if a == pos {
                    assert(out@[b] == before[b - 1]);
                } else {
                    assert(out@[a] == before[a - 1] && out@[b] == before[b - 1]);
                }
            }
        }
    }
    proof {
        assert(input.take(input.len() as int) =~= input);
    }
    out
}


} // verus!
