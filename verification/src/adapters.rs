//! Concrete sequence shapes that carry the scanning capability: a vector
//! consumed front to back, and derivations of any iterator — reversed,
//! numbered, chained, bounded or skipped.  Each adapter keeps whichever of
//! the two traversal abilities it can; what it cannot keep (a chain's exact
//! length, a bound's view of the back) it does not promise.
use vstd::prelude::*;

use crate::try_iterator::TryIterator;
use crate::try_iterator::TryReverseIterator;

verus! {

/// An iterator over the elements of a vector, produced in order and by
/// value.  It supports traversal from both ends and knows its exact
/// remaining length, so all four fallible scans are available on it.
pub struct VecTryIter<T> {
    items: Vec<T>,
}

impl<T> VecTryIter<T> {
    /// Takes ownership of `items` and produces them front to back.
    pub fn new(items: Vec<T>) -> (it: Self)
        ensures
            it.remaining() == items@,
    {
        VecTryIter { items }
    }
}

impl<T> TryIterator for VecTryIter<T> {
    type Item = T;

    closed spec fn remaining(&self) -> Seq<T> {
        self.items@
    }

    fn next(&mut self) -> (r: Option<T>) {
        if self.items.len() > 0 {
            let t = self.items.remove(0);
            proof {
                assert(self.items@ =~= old(self).items@.skip(1));
            }
            Some(t)
        } else {
            None
        }
    }
}

impl<T> TryReverseIterator for VecTryIter<T> {
    fn next_back(&mut self) -> (r: Option<T>) {
        let r = self.items.pop();
        proof {
            if old(self).items@.len() > 0 {
                assert(self.items@ =~= old(self).items@.drop_last());
            }
        }
        r
    }

    fn len(&self) -> (n: usize) {
        self.items.len()
    }
}

/// An iterator over the elements of a slice, produced in order and by
/// reference, leaving the slice itself untouched.  It supports traversal
/// from both ends and knows its exact remaining length, so all four
/// fallible scans are available on it.
pub struct SliceTryIter<'a, T> {
    items: &'a [T],
}

impl<'a, T> SliceTryIter<'a, T> {
    /// Borrows `items` and produces references to them front to back.
    pub fn new(items: &'a [T]) -> (it: Self)
        ensures
            it.remaining() == items@.map(|_i: int, x: T| &x),
    {
        SliceTryIter { items }
    }
}

impl<'a, T> TryIterator for SliceTryIter<'a, T> {
    type Item = &'a T;

    closed spec fn remaining(&self) -> Seq<&'a T> {
        self.items@.map(|_i: int, x: T| &x)
    }

    fn next(&mut self) -> (r: Option<&'a T>) {
        if self.items.len() > 0 {
            let t = vstd::slice::slice_index_get(self.items, 0);
            self.items = vstd::slice::slice_subrange(self.items, 1, self.items.len());
            proof {
                assert(self.remaining() =~= old(self).remaining().skip(1));
            }
            Some(t)
        } else {
            None
        }
    }
}

impl<'a, T> TryReverseIterator for SliceTryIter<'a, T> {
    fn next_back(&mut self) -> (r: Option<&'a T>) {
        if self.items.len() > 0 {
            let t = vstd::slice::slice_index_get(self.items, self.items.len() - 1);
            self.items = vstd::slice::slice_subrange(self.items, 0, self.items.len() - 1);
            proof {
                assert(self.remaining() =~= old(self).remaining().drop_last());
                assert(t == old(self).remaining().last());
            }
            Some(t)
        } else {
            None
        }
    }

    fn len(&self) -> (n: usize) {
        self.items.len()
    }
}

/// An adapter that reverses an iterator: it produces the elements of the
/// underlying iterator from the back, so a forward scan over it examines
/// them in reverse order.  Only an iterator that already supports reverse
/// traversal and knows its length can be reversed, and the reversal keeps
/// both abilities.
pub struct Reversed<I> {
    inner: I,
}

impl<I: TryReverseIterator> Reversed<I> {
    /// Wraps `inner`, producing its elements back to front.
    pub fn new(inner: I) -> (it: Self)
        ensures
            it.remaining() == inner.remaining().reverse(),
    {
        Reversed { inner }
    }
}

impl<I: TryReverseIterator> TryIterator for Reversed<I> {
    type Item = I::Item;

    closed spec fn remaining(&self) -> Seq<I::Item> {
        self.inner.remaining().reverse()
    }

    fn next(&mut self) -> (r: Option<I::Item>) {
        let r = self.inner.next_back();
        proof {
            if old(self).inner.remaining().len() > 0 {
                assert(old(self).inner.remaining().drop_last().reverse() =~= old(
                    self,
                ).inner.remaining().reverse().skip(1));
                assert(old(self).inner.remaining().last() == old(
                    self,
                ).inner.remaining().reverse()[0]);
            }
        }
        r
    }
}

impl<I: TryReverseIterator> TryReverseIterator for Reversed<I> {
    fn next_back(&mut self) -> (r: Option<I::Item>) {
        let r = self.inner.next();
        proof {
            if old(self).inner.remaining().len() > 0 {
                assert(old(self).inner.remaining().skip(1).reverse() =~= old(
                    self,
                ).inner.remaining().reverse().drop_last());
                assert(old(self).inner.remaining()[0] == old(
                    self,
                ).inner.remaining().reverse().last());
            }
        }
        r
    }

    fn len(&self) -> (n: usize) {
        self.inner.len()
    }
}

/// The elements of `s` paired each with its zero-based index counted from
/// the front.
pub open spec fn enumerated_view<T>(s: Seq<T>) -> Seq<(usize, T)> {
    Seq::new(s.len(), |i: int| (i as usize, s[i]))
}

/// Numbers the elements of an iterator: consumes it and produces the
/// sequence of pairs of a zero-based index and the element, itself
/// traversable from both ends.  The iterator must know its exact length, so
/// that the indices are known to fit in a machine word.
pub fn enumerate<I: TryReverseIterator>(it: I) -> (out: VecTryIter<(usize, I::Item)>)
    ensures
        out.remaining() == enumerated_view(it.remaining()),
{
    let ghost s = it.remaining();
    let mut cur = it;
    let n = cur.len();
    let mut pairs: Vec<(usize, I::Item)> = Vec::new();
    let mut idx: usize = 0;
    loop
        invariant
            s == it.remaining(),
            s.len() == n,
            0 <= idx <= n,
            cur.remaining() =~= s.skip(idx as int),
            pairs@ =~= enumerated_view(s).take(idx as int),
        decreases n - idx,
    {
        match cur.next() {
            None => {
                proof {
                    assert(s.skip(idx as int).len() == 0);
                    assert(pairs@ =~= enumerated_view(s));
                }
                return VecTryIter::new(pairs);
            },
            Some(t) => {
                proof {
                    assert(t == s.skip(idx as int)[0]);
                }
                pairs.push((idx, t));
                idx = idx + 1;
                proof {
                    assert(cur.remaining() =~= s.skip(idx as int));
                    assert(pairs@ =~= enumerated_view(s).take(idx as int));
                }
            },
        }
    }
}

/// An adapter that chains two iterators: it produces every element of the
/// first, then every element of the second.  Chaining keeps only forward
/// traversal — the combined remaining length need not fit in a machine
/// word, so the backward search is not available on it.
pub struct Chained<A, B> {
    first: A,
    second: B,
}

impl<A: TryIterator, B: TryIterator<Item = A::Item>> Chained<A, B> {
    /// Produces the elements of `first`, then those of `second`.
    pub fn new(first: A, second: B) -> (it: Self)
        ensures
            it.remaining() == first.remaining() + second.remaining(),
    {
        Chained { first, second }
    }
}

impl<A: TryIterator, B: TryIterator<Item = A::Item>> TryIterator for Chained<A, B> {
    type Item = A::Item;

    closed spec fn remaining(&self) -> Seq<A::Item> {
        self.first.remaining() + self.second.remaining()
    }

    fn next(&mut self) -> (r: Option<A::Item>) {
        match self.first.next() {
            Some(t) => {
                proof {
                    assert(self.remaining() =~= old(self).remaining().skip(1));
                }
                Some(t)
            },
            None => {
                let r = self.second.next();
                proof {
                    if old(self).second.remaining().len() > 0 {
                        assert(old(self).remaining()[0] == old(self).second.remaining()[0]);
                        assert(self.remaining() =~= old(self).remaining().skip(1));
                    } else {
                        assert(self.remaining() =~= old(self).remaining());
                    }
                }
                r
            },
        }
    }
}

/// An adapter that bounds an iterator: it produces at most `count` front
/// elements of the underlying iterator, then reports exhaustion, leaving
/// anything further unconsumed.
pub struct Taken<I> {
    inner: I,
    count: usize,
}

/// The front `count` elements of `s`, or all of `s` when it is shorter.
pub open spec fn taken_view<T>(s: Seq<T>, count: usize) -> Seq<T> {
    if count <= s.len() {
        s.take(count as int)
    } else {
        s
    }
}

impl<I: TryIterator> Taken<I> {
    /// Produces at most the front `count` elements of `inner`.
    pub fn new(inner: I, count: usize) -> (it: Self)
        ensures
            it.remaining() == taken_view(inner.remaining(), count),
    {
        Taken { inner, count }
    }
}

impl<I: TryIterator> TryIterator for Taken<I> {
    type Item = I::Item;

    closed spec fn remaining(&self) -> Seq<I::Item> {
        taken_view(self.inner.remaining(), self.count)
    }

    fn next(&mut self) -> (r: Option<I::Item>) {
        if self.count == 0 {
            proof {
                assert(self.remaining() =~= Seq::<I::Item>::empty());
            }
            None
        } else {
            let r = self.inner.next();
            match r {
                Some(t) => {
                    self.count = self.count - 1;
                    proof {
                        assert(old(self).remaining().len() > 0);
                        assert(t == old(self).remaining()[0]);
                        assert(self.remaining() =~= old(self).remaining().skip(1));
                    }
                    Some(t)
                },
                None => {
                    proof {
                        assert(self.remaining() =~= old(self).remaining());
                    }
                    None
                },
            }
        }
    }
}

/// An adapter that skips the front of an iterator: it discards the first
/// `count` elements of the underlying iterator — lazily, on the first
/// demand — and produces the rest.
pub struct Skipped<I> {
    inner: I,
    to_skip: usize,
}

/// The elements of `s` behind the front `count`, or none when `s` is
/// shorter.
pub open spec fn skipped_view<T>(s: Seq<T>, count: usize) -> Seq<T> {
    if count <= s.len() {
        s.skip(count as int)
    } else {
        Seq::<T>::empty()
    }
}

impl<I: TryIterator> Skipped<I> {
    /// Produces the elements of `inner` behind the front `count`.
    pub fn new(inner: I, count: usize) -> (it: Self)
        ensures
            it.remaining() == skipped_view(inner.remaining(), count),
    {
        Skipped { inner, to_skip: count }
    }
}

impl<I: TryIterator> TryIterator for Skipped<I> {
    type Item = I::Item;

    closed spec fn remaining(&self) -> Seq<I::Item> {
        skipped_view(self.inner.remaining(), self.to_skip)
    }

    fn next(&mut self) -> (r: Option<I::Item>) {
        loop
            invariant
                self.remaining() == old(self).remaining(),
            ensures
                self.to_skip == 0,
                self.remaining() == old(self).remaining(),
            decreases self.to_skip,
        {
            if self.to_skip == 0 {
                break ;
            }
            match self.inner.next() {
                Some(_discarded) => {
                    self.to_skip = self.to_skip - 1;
                    proof {
                        assert(self.remaining() =~= old(self).remaining());
                    }
                },
                None => {
                    self.to_skip = 0;
                    proof {
                        assert(self.remaining() =~= old(self).remaining());
                    }
                },
            }
        }
        let r = self.inner.next();
        proof {
            if old(self).remaining().len() > 0 {
                assert(self.remaining() =~= old(self).remaining().skip(1));
            } else {
                assert(self.remaining() =~= old(self).remaining());
            }
        }
        r
    }
}

} // verus!
