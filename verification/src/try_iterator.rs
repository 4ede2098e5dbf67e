//! The scanning capability itself: a forward-traversal abstraction, a
//! reverse-traversal refinement, and the four fallible scans as provided
//! methods, each with an exact contract.
use vstd::prelude::*;

verus! {

/// On every element of `s` with index in `[lo, hi)`, the predicate `f`
/// succeeded with the boolean `b`.
pub open spec fn pred_ok<T, E, F: Fn(T) -> Result<bool, E>>(
    f: F,
    s: Seq<T>,
    lo: int,
    hi: int,
    b: bool,
) -> bool {
    forall|i: int| lo <= i < hi ==> call_ensures(f, (s[i],), Ok::<bool, E>(b))
}

/// A forward scan over `s` reached a decisive outcome at index `k`: every
/// element before `k` let the scan continue (the predicate succeeded with
/// `keep`), at `k` the predicate succeeded with `!keep`, and the elements
/// after `k` are exactly what the iterator still holds (`rem`), never
/// produced or examined.
pub open spec fn decided_at<T, E, F: Fn(T) -> Result<bool, E>>(
    f: F,
    s: Seq<T>,
    rem: Seq<T>,
    k: int,
    keep: bool,
) -> bool {
    &&& 0 <= k < s.len()
    &&& call_ensures(f, (s[k],), Ok::<bool, E>(!keep))
    &&& pred_ok(f, s, 0, k, keep)
    &&& rem =~= s.skip(k + 1)
}

/// A forward scan over `s` halted with the predicate's own failure at index
/// `k`: every element before `k` let the scan continue (the predicate
/// succeeded with `keep`), at `k` the predicate failed with `e`, and the
/// elements after `k` are exactly what the iterator still holds (`rem`),
/// never produced or examined.
pub open spec fn errored_at<T, E, F: Fn(T) -> Result<bool, E>>(
    f: F,
    s: Seq<T>,
    rem: Seq<T>,
    k: int,
    keep: bool,
    e: E,
) -> bool {
    &&& 0 <= k < s.len()
    &&& call_ensures(f, (s[k],), Err::<bool, E>(e))
    &&& pred_ok(f, s, 0, k, keep)
    &&& rem =~= s.skip(k + 1)
}

/// Some index `k` of `s` was the decisive one for a forward scan that kept
/// going on `keep`: the predicate succeeded with `!keep` there, with `keep`
/// before it, and `rem` is what stands after `k`.
pub open spec fn scan_decided<T, E, F: Fn(T) -> Result<bool, E>>(
    f: F,
    s: Seq<T>,
    rem: Seq<T>,
    keep: bool,
) -> bool {
    exists|k: int| #[trigger] decided_at(f, s, rem, k, keep)
}

/// Some index `k` of `s` is where a forward scan that kept going on `keep`
/// halted with the predicate's failure `e`, and `rem` is what stands after
/// `k`.
pub open spec fn scan_errored<T, E, F: Fn(T) -> Result<bool, E>>(
    f: F,
    s: Seq<T>,
    rem: Seq<T>,
    keep: bool,
    e: E,
) -> bool {
    exists|k: int| #[trigger] errored_at(f, s, rem, k, keep, e)
}

/// What `try_all` guarantees, over the elements `s` the iterator held before
/// the call, the elements `rem` it holds after, and the returned `r`.
pub open spec fn try_all_post<T, E, F: Fn(T) -> Result<bool, E>>(
    f: F,
    s: Seq<T>,
    rem: Seq<T>,
    r: Result<bool, E>,
) -> bool {
    match r {
        Ok(b) => if b {
            // Exhausted: the predicate succeeded with `true` on every element.
            &&& pred_ok(f, s, 0, s.len() as int, true)
            &&& rem =~= Seq::<T>::empty()
        } else {
            // The first decisive outcome was a `false`.
            scan_decided(f, s, rem, true)
        },
        Err(e) => scan_errored(f, s, rem, true, e),
    }
}

/// What `try_any` guarantees, over the elements `s` the iterator held before
/// the call, the elements `rem` it holds after, and the returned `r`.
pub open spec fn try_any_post<T, E, F: Fn(T) -> Result<bool, E>>(
    f: F,
    s: Seq<T>,
    rem: Seq<T>,
    r: Result<bool, E>,
) -> bool {
    match r {
        Ok(b) => if b {
            // The first decisive outcome was a `true`.
            scan_decided(f, s, rem, false)
        } else {
            // Exhausted: the predicate succeeded with `false` on every element.
            &&& pred_ok(f, s, 0, s.len() as int, false)
            &&& rem =~= Seq::<T>::empty()
        },
        Err(e) => scan_errored(f, s, rem, false, e),
    }
}

/// What `try_position` guarantees, over the elements `s` the iterator held
/// before the call, the elements `rem` it holds after, and the returned `r`.
/// An index is zero-based and counts from the front of `s`.
pub open spec fn try_position_post<T, E, F: Fn(T) -> Result<bool, E>>(
    f: F,
    s: Seq<T>,
    rem: Seq<T>,
    r: Result<Option<usize>, E>,
) -> bool {
    match r {
        // The first match sits at `idx`.
        Ok(Some(idx)) => decided_at(f, s, rem, idx as int, false),
        // Exhausted: the predicate succeeded with `false` on every element.
        Ok(None) => pred_ok(f, s, 0, s.len() as int, false) && rem =~= Seq::<T>::empty(),
        Err(e) => scan_errored(f, s, rem, false, e),
    }
}

/// A reverse scan over `s` found its last match at index `k`: every element
/// after `k` was examined first and the predicate succeeded with `false` on
/// it, at `k` the predicate succeeded with `true`, and the elements before
/// `k` are exactly what the iterator still holds (`rem`), never produced or
/// examined.  `k` counts from the front of `s`, not from the end.
pub open spec fn rdecided_at<T, E, F: Fn(T) -> Result<bool, E>>(
    f: F,
    s: Seq<T>,
    rem: Seq<T>,
    k: int,
) -> bool {
    &&& 0 <= k < s.len()
    &&& call_ensures(f, (s[k],), Ok::<bool, E>(true))
    &&& pred_ok(f, s, k + 1, s.len() as int, false)
    &&& rem =~= s.take(k)
}

/// A reverse scan over `s` halted with the predicate's own failure at index
/// `k`: every element after `k` was examined first and the predicate
/// succeeded with `false` on it, at `k` the predicate failed with `e`, and
/// the elements before `k` are exactly what the iterator still holds
/// (`rem`), never produced or examined.
pub open spec fn rerrored_at<T, E, F: Fn(T) -> Result<bool, E>>(
    f: F,
    s: Seq<T>,
    rem: Seq<T>,
    k: int,
    e: E,
) -> bool {
    &&& 0 <= k < s.len()
    &&& call_ensures(f, (s[k],), Err::<bool, E>(e))
    &&& pred_ok(f, s, k + 1, s.len() as int, false)
    &&& rem =~= s.take(k)
}

/// Some index `k` of `s` is where a reverse scan halted with the predicate's
/// failure `e`, and `rem` is what stands before `k`.
pub open spec fn rscan_errored<T, E, F: Fn(T) -> Result<bool, E>>(
    f: F,
    s: Seq<T>,
    rem: Seq<T>,
    e: E,
) -> bool {
    exists|k: int| #[trigger] rerrored_at(f, s, rem, k, e)
}

/// What `try_rposition` guarantees, over the elements `s` the iterator held
/// before the call, the elements `rem` it holds after, and the returned `r`.
/// An index is zero-based and counts from the front of `s`, although the
/// scan runs from the back.
pub open spec fn try_rposition_post<T, E, F: Fn(T) -> Result<bool, E>>(
    f: F,
    s: Seq<T>,
    rem: Seq<T>,
    r: Result<Option<usize>, E>,
) -> bool {
    match r {
        // The last match sits at `idx`.
        Ok(Some(idx)) => rdecided_at(f, s, rem, idx as int),
        // Exhausted: the predicate succeeded with `false` on every element.
        Ok(None) => pred_ok(f, s, 0, s.len() as int, false) && rem =~= Seq::<T>::empty(),
        Err(e) => rscan_errored(f, s, rem, e),
    }
}

/// A producer of elements, consumed one at a time in forward order.
///
/// `remaining` is the abstract view: the sequence of elements the iterator
/// has yet to produce.  `next` produces the front element of that sequence
/// and advances past it.  The fallible scans `try_all`, `try_any` and
/// `try_position` come with the trait; `try_rposition` additionally needs
/// the reverse-traversal refinement [`TryReverseIterator`].
pub trait TryIterator: Sized {
    type Item;

    /// The elements this iterator has yet to produce, in forward order.
    spec fn remaining(&self) -> Seq<Self::Item>;

    /// Produces the next element and advances past it; `None` once exhausted.
    fn next(&mut self) -> (r: Option<Self::Item>)
        ensures
            match r {
                Some(t) => old(self).remaining().len() > 0 && t == old(self).remaining()[0]
                    && final(self).remaining() == old(self).remaining().skip(1),
                None => old(self).remaining().len() == 0 && final(self).remaining() == old(
                    self,
                ).remaining(),
            },
    ;

    /// Tests whether every element matches the predicate, stopping at the
    /// first failure and returning that failure.
    ///
    /// Consumes elements in order.  A predicate failure or a `false` is
    /// decisive: the scan stops there and the elements after it stay in the
    /// iterator, unexamined.  Exhaustion with every call succeeding `true`
    /// (in particular, an empty iterator) succeeds with `true`.
    fn try_all<E, F: Fn(Self::Item) -> Result<bool, E>>(&mut self, f: F) -> (r: Result<bool, E>)
        requires
            forall|i: int|
                0 <= i < old(self).remaining().len() ==> call_requires(
                    f,
                    (old(self).remaining()[i],),
                ),
        ensures
            try_all_post(f, old(self).remaining(), final(self).remaining(), r),
    {
        let ghost s = self.remaining();
        let ghost mut k: int = 0;
        loop
            invariant
                s == old(self).remaining(),
                0 <= k <= s.len(),
                self.remaining() =~= s.skip(k),
                pred_ok(f, s, 0, k, true),
                forall|i: int| 0 <= i < s.len() ==> call_requires(f, (s[i],)),
            decreases s.len() - k,
        {
            match self.next() {
                None => {
                    proof {
                        assert(s.skip(k).len() == 0);
                    }
                    return Ok(true);
                },
                Some(t) => {
                    proof {
                        assert(t == s.skip(k)[0]);
                        assert(self.remaining() =~= s.skip(k + 1));
                    }
                    let y = f(t);
                    match y {
                        Ok(true) => {
                            proof {
                                k = k + 1;
                            }
                        },
                        Ok(false) => {
                            proof {
                                assert(decided_at(f, s, self.remaining(), k, true));
                                assert(scan_decided(f, s, self.remaining(), true));
                            }
                            return Ok(false);
                        },
                        Err(e) => {
                            proof {
                                assert(errored_at(f, s, self.remaining(), k, true, e));
                                assert(scan_errored(f, s, self.remaining(), true, e));
                            }
                            return Err(e);
                        },
                    }
                },
            }
        }
    }

    /// Tests whether any element matches the predicate, stopping at the
    /// first failure and returning that failure.
    ///
    /// Consumes elements in order.  A predicate failure or a `true` is
    /// decisive: the scan stops there and the elements after it stay in the
    /// iterator, unexamined.  Exhaustion with every call succeeding `false`
    /// (in particular, an empty iterator) succeeds with `false`.
    fn try_any<E, F: Fn(Self::Item) -> Result<bool, E>>(&mut self, f: F) -> (r: Result<bool, E>)
        requires
            forall|i: int|
                0 <= i < old(self).remaining().len() ==> call_requires(
                    f,
                    (old(self).remaining()[i],),
                ),
        ensures
            try_any_post(f, old(self).remaining(), final(self).remaining(), r),
    {
        let ghost s = self.remaining();
        let ghost mut k: int = 0;
        loop
            invariant
                s == old(self).remaining(),
                0 <= k <= s.len(),
                self.remaining() =~= s.skip(k),
                pred_ok(f, s, 0, k, false),
                forall|i: int| 0 <= i < s.len() ==> call_requires(f, (s[i],)),
            decreases s.len() - k,
        {
            match self.next() {
                None => {
                    proof {
                        assert(s.skip(k).len() == 0);
                    }
                    return Ok(false);
                },
                Some(t) => {
                    proof {
                        assert(t == s.skip(k)[0]);
                        assert(self.remaining() =~= s.skip(k + 1));
                    }
                    let y = f(t);
                    match y {
                        Ok(false) => {
                            proof {
                                k = k + 1;
                            }
                        },
                        Ok(true) => {
                            proof {
                                assert(decided_at(f, s, self.remaining(), k, false));
                                assert(scan_decided(f, s, self.remaining(), false));
                            }
                            return Ok(true);
                        },
                        Err(e) => {
                            proof {
                                assert(errored_at(f, s, self.remaining(), k, false, e));
                                assert(scan_errored(f, s, self.remaining(), false, e));
                            }
                            return Err(e);
                        },
                    }
                },
            }
        }
    }

    /// Searches for the first element matching the predicate and returns its
    /// zero-based index, stopping at the first failure and returning that
    /// failure.
    ///
    /// Consumes elements in order, counting every examined element.  A
    /// predicate failure or a `true` is decisive: the scan stops there and
    /// the elements after it stay in the iterator, unexamined.  On a failure
    /// the index reached so far is discarded; the failure alone is surfaced.
    /// Exhaustion with no match (in particular, an empty iterator) succeeds
    /// with `None`.
    fn try_position<E, F: Fn(Self::Item) -> Result<bool, E>>(&mut self, f: F) -> (r: Result<
        Option<usize>,
        E,
    >)
        requires
            old(self).remaining().len() <= usize::MAX,
            forall|i: int|
                0 <= i < old(self).remaining().len() ==> call_requires(
                    f,
                    (old(self).remaining()[i],),
                ),
        ensures
            try_position_post(f, old(self).remaining(), final(self).remaining(), r),
    {
        let ghost s = self.remaining();
        let mut idx: usize = 0;
        loop
            invariant
                s == old(self).remaining(),
                s.len() <= usize::MAX,
                0 <= idx <= s.len(),
                self.remaining() =~= s.skip(idx as int),
                pred_ok(f, s, 0, idx as int, false),
                forall|i: int| 0 <= i < s.len() ==> call_requires(f, (s[i],)),
            decreases s.len() - idx,
        {
            match self.next() {
                None => {
                    proof {
                        assert(s.skip(idx as int).len() == 0);
                    }
                    return Ok(None);
                },
                Some(t) => {
                    proof {
                        assert(t == s.skip(idx as int)[0]);
                        assert(self.remaining() =~= s.skip(idx as int + 1));
                    }
                    let y = f(t);
                    match y {
                        Ok(false) => {
                            idx = idx + 1;
                        },
                        Ok(true) => {
                            proof {
                                assert(decided_at(f, s, self.remaining(), idx as int, false));
                                assert(scan_decided(f, s, self.remaining(), false));
                            }
                            return Ok(Some(idx));
                        },
                        Err(e) => {
                            proof {
                                assert(errored_at(f, s, self.remaining(), idx as int, false, e));
                                assert(scan_errored(f, s, self.remaining(), false, e));
                            }
                            return Err(e);
                        },
                    }
                },
            }
        }
    }
}

/// A producer that can also be consumed from the back, and that knows its
/// exact remaining length.  The backward search `try_rposition` needs both
/// abilities: it scans from the last element to the first while reporting
/// indices that count from the front, which takes the exact count up front.
pub trait TryReverseIterator: TryIterator {
    /// Produces the last remaining element and retreats past it; `None` once
    /// exhausted.
    fn next_back(&mut self) -> (r: Option<Self::Item>)
        ensures
            match r {
                Some(t) => old(self).remaining().len() > 0 && t == old(self).remaining().last()
                    && final(self).remaining() == old(self).remaining().drop_last(),
                None => old(self).remaining().len() == 0 && final(self).remaining() == old(
                    self,
                ).remaining(),
            },
    ;

    /// The exact number of elements this iterator has yet to produce.
    fn len(&self) -> (n: usize)
        ensures
            n == self.remaining().len(),
    ;

    /// Searches from the back for the last element matching the predicate
    /// and returns its index counted from the front, stopping at the first
    /// failure and returning that failure.
    ///
    /// Consumes elements in reverse order, from the highest index down.  A
    /// predicate failure or a `true` is decisive: the scan stops there and
    /// the elements before it stay in the iterator, unexamined.  Exhaustion
    /// with no match (in particular, an empty iterator) succeeds with `None`.
    fn try_rposition<E, F: Fn(Self::Item) -> Result<bool, E>>(&mut self, f: F) -> (r: Result<
        Option<usize>,
        E,
    >)
        requires
            forall|i: int|
                0 <= i < old(self).remaining().len() ==> call_requires(
                    f,
                    (old(self).remaining()[i],),
                ),
        ensures
            try_rposition_post(f, old(self).remaining(), final(self).remaining(), r),
    {
        let ghost s = self.remaining();
        let mut n: usize = self.len();
        loop
            invariant
                s == old(self).remaining(),
                n == self.remaining().len(),
                n <= s.len(),
                self.remaining() =~= s.take(n as int),
                pred_ok(f, s, n as int, s.len() as int, false),
                forall|i: int| 0 <= i < s.len() ==> call_requires(f, (s[i],)),
            decreases n,
        {
            match self.next_back() {
                None => {
                    return Ok(None);
                },
                Some(t) => {
                    n = n - 1;
                    proof {
                        assert(t == s.take(n as int + 1)[n as int]);
                        assert(self.remaining() =~= s.take(n as int));
                    }
                    let y = f(t);
                    match y {
                        Ok(false) => {
                        },
                        Ok(true) => {
                            proof {
                                assert(rdecided_at(f, s, self.remaining(), n as int));
                            }
                            return Ok(Some(n));
                        },
                        Err(e) => {
                            proof {
                                assert(rerrored_at(f, s, self.remaining(), n as int, e));
                                assert(rscan_errored(f, s, self.remaining(), e));
                            }
                            return Err(e);
                        },
                    }
                },
            }
        }
    }
}

} // verus!
