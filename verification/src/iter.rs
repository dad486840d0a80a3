//! By-value iteration over a [`PartialArray`].

use vstd::prelude::*;
use vstd::multiset::Multiset;
use vstd::string::StringExecFns;
use crate::{PartialArray, lemma_render_items_push, push_decimal, spec_render, spec_render_items};

verus! {

/// One pull at the model level: the element yielded — the frontmost one for a
/// front pull, the backmost one for a back pull, none once nothing remains —
/// paired with the sequence that remains afterwards.
pub open spec fn spec_pull<T>(s: Seq<T>, front: bool) -> (Option<T>, Seq<T>) {
    if s.len() == 0 {
        (None, s)
    } else if front {
        (Some(s.first()), s.drop_first())
    } else {
        (Some(s.last()), s.drop_last())
    }
}

/// The elements yielded by a series of pulls against `s`, each direction
/// taken in turn from `dirs` (`true` pulls from the front).
pub open spec fn spec_pulled<T>(s: Seq<T>, dirs: Seq<bool>) -> Multiset<T>
    decreases dirs.len(),
{
    if dirs.len() == 0 {
        Multiset::empty()
    } else {
        let step = spec_pull(s, dirs.first());
        let rest = spec_pulled(step.1, dirs.drop_first());
        match step.0 {
            Some(x) => rest.insert(x),
            None => rest,
        }
    }
}

/// The elements still held after a series of pulls against `s`.
pub open spec fn spec_remaining<T>(s: Seq<T>, dirs: Seq<bool>) -> Seq<T>
    decreases dirs.len(),
{
    if dirs.len() == 0 {
        s
    } else {
        spec_remaining(spec_pull(s, dirs.first()).1, dirs.drop_first())
    }
}

/// An owning iterator over the elements of a [`PartialArray<T, N>`].
///
/// It takes over the container's slots and hands the values out one by one,
/// from the front or from the back. The not-yet-yielded values are exactly
/// the slots in `read..filled`; its view `self@` is that sequence.
#[derive(Debug)]
pub struct IntoIter<T, const N: usize> {
    /// The `N` slots taken over from the source container.
    array: Vec<Option<T>>,
    /// Back boundary, exclusive: slots at `filled` and beyond were either
    /// yielded from the back already or never held a value.
    filled: usize,
    /// Front cursor: slots before `read` were yielded from the front already.
    read: usize,
}

impl<T, const N: usize> IntoIter<T, N> {
    /// Slot discipline: `N` slots, the cursors delimit a range within them,
    /// and every slot of that range holds a value.
    #[verifier::type_invariant]
    spec fn wf(self) -> bool {
        &&& self.array@.len() == N
        &&& self.read <= self.filled <= N
        &&& forall|i: int| self.read <= i < self.filled ==> self.array@[i] is Some
    }
}

impl<T, const N: usize> View for IntoIter<T, N> {
    type V = Seq<T>;

    /// The not-yet-yielded values, front to back.
    closed spec fn view(&self) -> Seq<T> {
        Seq::new(
            (self.filled - self.read) as nat,
            |i: int| self.array@[self.read + i].unwrap(),
        )
    }
}

impl<T, const N: usize> IntoIter<T, N> {
    /// Take over the storage of `src`; the elements to yield are exactly its
    /// filled prefix, in the same order.
    pub fn new(src: PartialArray<T, N>) -> (r: Self)
        ensures
            r@ == src@,
    {
        let ghost v = src@;
        let (filled, array) = src.into_parts();
        let r = IntoIter { array, filled, read: 0 };
        proof {
            assert(r@ =~= v);
        }
        r
    }

    /// Yield the frontmost remaining element, or `None` once exhausted.
    pub fn next(&mut self) -> (r: Option<T>)
        ensures
            old(self)@.len() == 0 ==> r is None && *final(self) == *old(self),
            old(self)@.len() > 0 ==> r == Some(old(self)@[0]) && final(self)@ == old(self)@.drop_first(),
            (r, final(self)@) == spec_pull(old(self)@, true),
    {
        proof {
            use_type_invariant(&*self);
        }
        if self.read != self.filled {
            let idx = self.read;
            self.read = idx + 1;
            let r = self.array[idx].take();
            proof {
                assert(self@ =~= old(self)@.drop_first());
            }
            r
        } else {
            None
        }
    }

    /// Yield the backmost remaining element, or `None` once exhausted.
    pub fn next_back(&mut self) -> (r: Option<T>)
        ensures
            old(self)@.len() == 0 ==> r is None && *final(self) == *old(self),
            old(self)@.len() > 0 ==> r == Some(old(self)@.last()) && final(self)@ == old(self)@.drop_last(),
            (r, final(self)@) == spec_pull(old(self)@, false),
    {
        proof {
            use_type_invariant(&*self);
        }
        if self.read != self.filled {
            let idx = self.filled - 1;
            self.filled = idx;
            let r = self.array[idx].take();
            proof {
                assert(self@ =~= old(self)@.drop_last());
            }
            r
        } else {
            None
        }
    }

    /// The exact count of elements still to be yielded, given twice over: as
    /// the guaranteed minimum and as the known maximum.
    pub fn size_hint(&self) -> (r: (usize, Option<usize>))
        ensures
            r.0 == self@.len(),
            r.1 == Some(r.0),
    {
        proof {
            use_type_invariant(self);
        }
        let len = self.filled - self.read;
        (len, Some(len))
    }
}

impl<const N: usize> IntoIter<u8, N> {
    /// The not-yet-yielded elements as text, rendered like the container's
    /// filled prefix: decimal values, separated by comma and space, between
    /// square brackets.
    pub fn render(&self) -> (r: String)
        ensures
            r@ == spec_render(self@),
    {
        proof {
            use_type_invariant(self);
        }
        let n = self.filled - self.read;
        let mut s = String::new();
        s.append("[");
        proof {
            reveal_strlit("[");
            assert(s@ =~= seq!['['] + spec_render_items(self@.take(0)));
        }
        let mut i: usize = 0;
        while i < n
            invariant
                n == self@.len(),
                i <= n,
                s@ == seq!['['] + spec_render_items(self@.take(i as int)),
            decreases n - i,
        {
            proof {
                use_type_invariant(self);
            }
            if i > 0 {
                s.append(", ");
            }
            let x = *self.array[self.read + i].as_ref().unwrap();
            push_decimal(&mut s, x);
            proof {
                reveal_strlit(", ");
                lemma_render_items_push(self@.take(i as int), self@[i as int]);
                assert(self@.take(i as int + 1) =~= self@.take(i as int).push(self@[i as int]));
                assert(s@ =~= seq!['['] + spec_render_items(self@.take(i as int + 1)));
            }
            i = i + 1;
        }
        s.append("]");
        proof {
            reveal_strlit("]");
            assert(self@.take(n as int) =~= self@);
            assert(s@ =~= spec_render(self@));
        }
        s
    }
}

/// However front and back pulls interleave, the elements pulled so far and
/// the elements still held split the starting elements exactly: every element
/// is owed exactly one release, either already handed to a caller or still
/// with the iterator.
pub proof fn lemma_pulls_partition<T>(s: Seq<T>, dirs: Seq<bool>)
    ensures
        spec_pulled(s, dirs).add(spec_remaining(s, dirs).to_multiset()) =~= s.to_multiset(),
    decreases dirs.len(),
{
    broadcast use vstd::seq_lib::group_to_multiset_ensures;
    broadcast use vstd::multiset::group_multiset_axioms;
    if dirs.len() > 0 && s.len() > 0 {
        let step = spec_pull(s, dirs.first());
        let x = step.0.unwrap();
        let rest = step.1;
        lemma_pulls_partition(rest, dirs.drop_first());
        if dirs.first() {
            assert(rest =~= s.remove(0));
            assert(rest.to_multiset() =~= s.to_multiset().remove(s[0]));
        } else {
            assert(rest =~= s.remove(s.len() - 1));
            assert(rest.to_multiset() =~= s.to_multiset().remove(s[s.len() - 1]));
        }
        assert(s.to_multiset().count(x) > 0);
        assert(s.to_multiset() =~= rest.to_multiset().insert(x));
    } else if dirs.len() > 0 {
        lemma_pulls_partition(s, dirs.drop_first());
    }
}

/// Exhaustion is a fixed point: once nothing remains, any further series of
/// pulls, from either end in any order, yields nothing and changes nothing.
pub proof fn lemma_exhausted_pulls_stutter<T>(s: Seq<T>, dirs: Seq<bool>)
    requires
        s.len() == 0,
    ensures
        spec_remaining(s, dirs) == s,
        spec_pulled(s, dirs) =~= Multiset::<T>::empty(),
    decreases dirs.len(),
{
    if dirs.len() > 0 {
        lemma_exhausted_pulls_stutter(s, dirs.drop_first());
    }
}

} // verus!
