//! Laws of the four scans, proved from their contracts alone.
//!
//! Each lemma takes the facts a scan's `ensures` hands its caller (the
//! `*_post` predicate over the elements `s` held before the call, the
//! elements `rem` held after, and the returned `r`) and derives what must
//! have been returned.
use vstd::prelude::*;

use crate::try_iterator::decided_at;
use crate::try_iterator::errored_at;
use crate::try_iterator::rerrored_at;
use crate::try_iterator::try_all_post;
use crate::try_iterator::try_any_post;
use crate::try_iterator::try_position_post;
use crate::try_iterator::try_rposition_post;

verus! {

/// A predicate that can only ever succeed with `true` makes `try_all`
/// succeed with `true`, on every sequence of elements.
pub proof fn lemma_try_all_constant_true<T, E, F: Fn(T) -> Result<bool, E>>(
    f: F,
    s: Seq<T>,
    rem: Seq<T>,
    r: Result<bool, E>,
)
    requires
        try_all_post(f, s, rem, r),
        forall|t: T, y: Result<bool, E>| call_ensures(f, (t,), y) ==> y == Ok::<bool, E>(true),
    ensures
        r == Ok::<bool, E>(true),
        rem.len() == 0,
{
    match r {
        Ok(b) => {
            if !b {
                let k = choose|k: int| #[trigger] decided_at(f, s, rem, k, true);
                assert(call_ensures(f, (s[k],), Ok::<bool, E>(false)));
            }
        },
        Err(e) => {
            let k = choose|k: int| #[trigger] errored_at(f, s, rem, k, true, e);
            assert(call_ensures(f, (s[k],), Err::<bool, E>(e)));
        },
    }
}

/// A predicate that can only ever succeed with `false` makes `try_any`
/// succeed with `false`, on every sequence of elements.
pub proof fn lemma_try_any_constant_false<T, E, F: Fn(T) -> Result<bool, E>>(
    f: F,
    s: Seq<T>,
    rem: Seq<T>,
    r: Result<bool, E>,
)
    requires
        try_any_post(f, s, rem, r),
        forall|t: T, y: Result<bool, E>| call_ensures(f, (t,), y) ==> y == Ok::<bool, E>(false),
    ensures
        r == Ok::<bool, E>(false),
        rem.len() == 0,
{
    match r {
        Ok(b) => {
            if b {
                let k = choose|k: int| #[trigger] decided_at(f, s, rem, k, false);
                assert(call_ensures(f, (s[k],), Ok::<bool, E>(true)));
            }
        },
        Err(e) => {
            let k = choose|k: int| #[trigger] errored_at(f, s, rem, k, false, e);
            assert(call_ensures(f, (s[k],), Err::<bool, E>(e)));
        },
    }
}

/// On an empty sequence `try_all` succeeds with `true` (vacuous truth),
/// whatever the predicate, and the iterator is left as it was.
pub proof fn lemma_try_all_empty<T, E, F: Fn(T) -> Result<bool, E>>(
    f: F,
    s: Seq<T>,
    rem: Seq<T>,
    r: Result<bool, E>,
)
    requires
        try_all_post(f, s, rem, r),
        s.len() == 0,
    ensures
        r == Ok::<bool, E>(true),
        rem == s,
{
    match r {
        Ok(b) => {
            if !b {
                let k = choose|k: int| #[trigger] decided_at(f, s, rem, k, true);
            }
        },
        Err(e) => {
            let k = choose|k: int| #[trigger] errored_at(f, s, rem, k, true, e);
        },
    }
    assert(rem =~= s);
}

/// On an empty sequence `try_any` succeeds with `false`, whatever the
/// predicate, and the iterator is left as it was.
pub proof fn lemma_try_any_empty<T, E, F: Fn(T) -> Result<bool, E>>(
    f: F,
    s: Seq<T>,
    rem: Seq<T>,
    r: Result<bool, E>,
)
    requires
        try_any_post(f, s, rem, r),
        s.len() == 0,
    ensures
        r == Ok::<bool, E>(false),
        rem == s,
{
    match r {
        Ok(b) => {
            if b {
                let k = choose|k: int| #[trigger] decided_at(f, s, rem, k, false);
            }
        },
        Err(e) => {
            let k = choose|k: int| #[trigger] errored_at(f, s, rem, k, false, e);
        },
    }
    assert(rem =~= s);
}

/// On an empty sequence `try_position` succeeds with `None`, whatever the
/// predicate, and the iterator is left as it was.
pub proof fn lemma_try_position_empty<T, E, F: Fn(T) -> Result<bool, E>>(
    f: F,
    s: Seq<T>,
    rem: Seq<T>,
    r: Result<Option<usize>, E>,
)
    requires
        try_position_post(f, s, rem, r),
        s.len() == 0,
    ensures
        r == Ok::<Option<usize>, E>(None),
        rem == s,
{
    match r {
        Ok(_) => {
        },
        Err(e) => {
            let k = choose|k: int| #[trigger] errored_at(f, s, rem, k, false, e);
        },
    }
    assert(rem =~= s);
}

/// On an empty sequence `try_rposition` succeeds with `None`, whatever the
/// predicate, and the iterator is left as it was.
pub proof fn lemma_try_rposition_empty<T, E, F: Fn(T) -> Result<bool, E>>(
    f: F,
    s: Seq<T>,
    rem: Seq<T>,
    r: Result<Option<usize>, E>,
)
    requires
        try_rposition_post(f, s, rem, r),
        s.len() == 0,
    ensures
        r == Ok::<Option<usize>, E>(None),
        rem == s,
{
    match r {
        Ok(_) => {
        },
        Err(e) => {
            let k = choose|k: int| #[trigger] rerrored_at(f, s, rem, k, e);
        },
    }
    assert(rem =~= s);
}

/// If the predicate must succeed with `false` on the element at `k` and can
/// only succeed with `true` before it, `try_all` succeeds with `false`, and
/// the elements after `k` — the decisive element — were never examined:
/// they are still in the iterator, whatever the predicate would have
/// answered on them.
pub proof fn lemma_try_all_first_false<T, E, F: Fn(T) -> Result<bool, E>>(
    f: F,
    s: Seq<T>,
    rem: Seq<T>,
    r: Result<bool, E>,
    k: int,
)
    requires
        try_all_post(f, s, rem, r),
        0 <= k < s.len(),
        forall|i: int, y: Result<bool, E>|
            0 <= i < k && call_ensures(f, (s[i],), y) ==> y == Ok::<bool, E>(true),
        forall|y: Result<bool, E>| call_ensures(f, (s[k],), y) ==> y == Ok::<bool, E>(false),
    ensures
        r == Ok::<bool, E>(false),
        rem == s.skip(k + 1),
{
    match r {
        Ok(b) => {
            if b {
                assert(call_ensures(f, (s[k],), Ok::<bool, E>(true)));
            } else {
                let k0 = choose|k0: int| #[trigger] decided_at(f, s, rem, k0, true);
                assert(call_ensures(f, (s[k0],), Ok::<bool, E>(false)));
                if k0 > k {
                    assert(call_ensures(f, (s[k],), Ok::<bool, E>(true)));
                }
                assert(k0 == k);
            }
        },
        Err(e0) => {
            let k0 = choose|k0: int| #[trigger] errored_at(f, s, rem, k0, true, e0);
            assert(call_ensures(f, (s[k0],), Err::<bool, E>(e0)));
            if k0 > k {
                assert(call_ensures(f, (s[k],), Ok::<bool, E>(true)));
            }
        },
    }
}

/// If the predicate must succeed with `true` on the element at `k` and can
/// only succeed with `false` before it, `try_any` succeeds with `true`, and
/// the elements after `k` — the decisive element — were never examined.
pub proof fn lemma_try_any_first_match<T, E, F: Fn(T) -> Result<bool, E>>(
    f: F,
    s: Seq<T>,
    rem: Seq<T>,
    r: Result<bool, E>,
    k: int,
)
    requires
        try_any_post(f, s, rem, r),
        0 <= k < s.len(),
        forall|i: int, y: Result<bool, E>|
            0 <= i < k && call_ensures(f, (s[i],), y) ==> y == Ok::<bool, E>(false),
        forall|y: Result<bool, E>| call_ensures(f, (s[k],), y) ==> y == Ok::<bool, E>(true),
    ensures
        r == Ok::<bool, E>(true),
        rem == s.skip(k + 1),
{
    match r {
        Ok(b) => {
            if b {
                let k0 = choose|k0: int| #[trigger] decided_at(f, s, rem, k0, false);
                assert(call_ensures(f, (s[k0],), Ok::<bool, E>(true)));
                if k0 > k {
                    assert(call_ensures(f, (s[k],), Ok::<bool, E>(false)));
                }
                assert(k0 == k);
            } else {
                assert(call_ensures(f, (s[k],), Ok::<bool, E>(false)));
            }
        },
        Err(e0) => {
            let k0 = choose|k0: int| #[trigger] errored_at(f, s, rem, k0, false, e0);
            assert(call_ensures(f, (s[k0],), Err::<bool, E>(e0)));
            if k0 > k {
                assert(call_ensures(f, (s[k],), Ok::<bool, E>(false)));
            }
        },
    }
}

/// If the predicate must succeed with `true` on the element at `k` and can
/// only succeed with `false` before it, `try_position` succeeds with
/// exactly the index `k`, and the elements after `k` were never examined.
pub proof fn lemma_try_position_first_match<T, E, F: Fn(T) -> Result<bool, E>>(
    f: F,
    s: Seq<T>,
    rem: Seq<T>,
    r: Result<Option<usize>, E>,
    k: int,
)
    requires
        try_position_post(f, s, rem, r),
        0 <= k < s.len(),
        forall|i: int, y: Result<bool, E>|
            0 <= i < k && call_ensures(f, (s[i],), y) ==> y == Ok::<bool, E>(false),
        forall|y: Result<bool, E>| call_ensures(f, (s[k],), y) ==> y == Ok::<bool, E>(true),
    ensures
        r == Ok::<Option<usize>, E>(Some(k as usize)),
        rem == s.skip(k + 1),
{
    match r {
        Ok(idx_opt) => match idx_opt {
            Some(idx) => {
                assert(call_ensures(f, (s[idx as int],), Ok::<bool, E>(true)));
                if idx < k {
                    assert(call_ensures(f, (s[k],), Ok::<bool, E>(true)));
                }
                if idx > k {
                    assert(call_ensures(f, (s[k],), Ok::<bool, E>(false)));
                }
                assert(idx == k);
            },
            None => {
                assert(call_ensures(f, (s[k],), Ok::<bool, E>(false)));
            },
        },
        Err(e0) => {
            let k0 = choose|k0: int| #[trigger] errored_at(f, s, rem, k0, false, e0);
            assert(call_ensures(f, (s[k0],), Err::<bool, E>(e0)));
            if k0 > k {
                assert(call_ensures(f, (s[k],), Ok::<bool, E>(false)));
            }
        },
    }
}

/// If the predicate must succeed with `true` on the element at `k` and can
/// only succeed with `false` after it — the elements a reverse scan
/// examines first — `try_rposition` succeeds with exactly the index `k`,
/// counted from the front, and the elements before `k` were never examined.
pub proof fn lemma_try_rposition_last_match<T, E, F: Fn(T) -> Result<bool, E>>(
    f: F,
    s: Seq<T>,
    rem: Seq<T>,
    r: Result<Option<usize>, E>,
    k: int,
)
    requires
        try_rposition_post(f, s, rem, r),
        0 <= k < s.len(),
        forall|i: int, y: Result<bool, E>|
            k < i < s.len() && call_ensures(f, (s[i],), y) ==> y == Ok::<bool, E>(false),
        forall|y: Result<bool, E>| call_ensures(f, (s[k],), y) ==> y == Ok::<bool, E>(true),
    ensures
        r == Ok::<Option<usize>, E>(Some(k as usize)),
        rem == s.take(k),
{
    match r {
        Ok(idx_opt) => match idx_opt {
            Some(idx) => {
                assert(call_ensures(f, (s[idx as int],), Ok::<bool, E>(true)));
                if idx < k {
                    assert(call_ensures(f, (s[k],), Ok::<bool, E>(false)));
                }
                assert(idx == k);
            },
            None => {
                assert(call_ensures(f, (s[k],), Ok::<bool, E>(false)));
            },
        },
        Err(e0) => {
            let k0 = choose|k0: int| #[trigger] rerrored_at(f, s, rem, k0, e0);
            assert(call_ensures(f, (s[k0],), Err::<bool, E>(e0)));
            if k0 < k {
                assert(call_ensures(f, (s[k],), Ok::<bool, E>(false)));
            }
        },
    }
}

/// If the predicate must fail with `e` on the element at `k` and can only
/// succeed with `true` before it, `try_all` returns exactly that failure,
/// and the elements after `k` were never examined: they are still in the
/// iterator, whatever the predicate would have answered on them.
pub proof fn lemma_try_all_error_propagation<T, E, F: Fn(T) -> Result<bool, E>>(
    f: F,
    s: Seq<T>,
    rem: Seq<T>,
    r: Result<bool, E>,
    k: int,
    e: E,
)
    requires
        try_all_post(f, s, rem, r),
        0 <= k < s.len(),
        forall|i: int, y: Result<bool, E>|
            0 <= i < k && call_ensures(f, (s[i],), y) ==> y == Ok::<bool, E>(true),
        forall|y: Result<bool, E>| call_ensures(f, (s[k],), y) ==> y == Err::<bool, E>(e),
    ensures
        r == Err::<bool, E>(e),
        rem == s.skip(k + 1),
{
    match r {
        Ok(b) => {
            if b {
                assert(call_ensures(f, (s[k],), Ok::<bool, E>(true)));
            } else {
                let k0 = choose|k0: int| #[trigger] decided_at(f, s, rem, k0, true);
                assert(call_ensures(f, (s[k0],), Ok::<bool, E>(false)));
                if k0 > k {
                    assert(call_ensures(f, (s[k],), Ok::<bool, E>(true)));
                }
            }
        },
        Err(e0) => {
            let k0 = choose|k0: int| #[trigger] errored_at(f, s, rem, k0, true, e0);
            assert(call_ensures(f, (s[k0],), Err::<bool, E>(e0)));
            if k0 > k {
                assert(call_ensures(f, (s[k],), Ok::<bool, E>(true)));
            }
            assert(k0 == k);
        },
    }
}

/// If the predicate must fail with `e` on the element at `k` and can only
/// succeed with `false` before it, `try_any` returns exactly that failure,
/// and the elements after `k` were never examined.
pub proof fn lemma_try_any_error_propagation<T, E, F: Fn(T) -> Result<bool, E>>(
    f: F,
    s: Seq<T>,
    rem: Seq<T>,
    r: Result<bool, E>,
    k: int,
    e: E,
)
    requires
        try_any_post(f, s, rem, r),
        0 <= k < s.len(),
        forall|i: int, y: Result<bool, E>|
            0 <= i < k && call_ensures(f, (s[i],), y) ==> y == Ok::<bool, E>(false),
        forall|y: Result<bool, E>| call_ensures(f, (s[k],), y) ==> y == Err::<bool, E>(e),
    ensures
        r == Err::<bool, E>(e),
        rem == s.skip(k + 1),
{
    match r {
        Ok(b) => {
            if b {
                let k0 = choose|k0: int| #[trigger] decided_at(f, s, rem, k0, false);
                assert(call_ensures(f, (s[k0],), Ok::<bool, E>(true)));
                if k0 > k {
                    assert(call_ensures(f, (s[k],), Ok::<bool, E>(false)));
                }
            } else {
                assert(call_ensures(f, (s[k],), Ok::<bool, E>(false)));
            }
        },
        Err(e0) => {
            let k0 = choose|k0: int| #[trigger] errored_at(f, s, rem, k0, false, e0);
            assert(call_ensures(f, (s[k0],), Err::<bool, E>(e0)));
            if k0 > k {
                assert(call_ensures(f, (s[k],), Ok::<bool, E>(false)));
            }
            assert(k0 == k);
        },
    }
}

/// If the predicate must fail with `e` on the element at `k` and can only
/// succeed with `false` before it, `try_position` returns exactly that
/// failure — the index reached so far is discarded — and the elements after
/// `k` were never examined.
pub proof fn lemma_try_position_error_propagation<T, E, F: Fn(T) -> Result<bool, E>>(
    f: F,
    s: Seq<T>,
    rem: Seq<T>,
    r: Result<Option<usize>, E>,
    k: int,
    e: E,
)
    requires
        try_position_post(f, s, rem, r),
        0 <= k < s.len(),
        forall|i: int, y: Result<bool, E>|
            0 <= i < k && call_ensures(f, (s[i],), y) ==> y == Ok::<bool, E>(false),
        forall|y: Result<bool, E>| call_ensures(f, (s[k],), y) ==> y == Err::<bool, E>(e),
    ensures
        r == Err::<Option<usize>, E>(e),
        rem == s.skip(k + 1),
{
    match r {
        Ok(idx_opt) => match idx_opt {
            Some(idx) => {
                assert(call_ensures(f, (s[idx as int],), Ok::<bool, E>(true)));
                if idx > k {
                    assert(call_ensures(f, (s[k],), Ok::<bool, E>(false)));
                }
            },
            None => {
                assert(call_ensures(f, (s[k],), Ok::<bool, E>(false)));
            },
        },
        Err(e0) => {
            let k0 = choose|k0: int| #[trigger] errored_at(f, s, rem, k0, false, e0);
            assert(call_ensures(f, (s[k0],), Err::<bool, E>(e0)));
            if k0 > k {
                assert(call_ensures(f, (s[k],), Ok::<bool, E>(false)));
            }
            assert(k0 == k);
        },
    }
}

/// If the predicate must fail with `e` on the element at `k` and can only
/// succeed with `false` after it — the elements a reverse scan examines
/// first — `try_rposition` returns exactly that failure, and the elements
/// before `k` were never examined.  In particular a match sitting below `k`
/// is never reached.
pub proof fn lemma_try_rposition_error_propagation<T, E, F: Fn(T) -> Result<bool, E>>(
    f: F,
    s: Seq<T>,
    rem: Seq<T>,
    r: Result<Option<usize>, E>,
    k: int,
    e: E,
)
    requires
        try_rposition_post(f, s, rem, r),
        0 <= k < s.len(),
        forall|i: int, y: Result<bool, E>|
            k < i < s.len() && call_ensures(f, (s[i],), y) ==> y == Ok::<bool, E>(false),
        forall|y: Result<bool, E>| call_ensures(f, (s[k],), y) ==> y == Err::<bool, E>(e),
    ensures
        r == Err::<Option<usize>, E>(e),
        rem == s.take(k),
{
    match r {
        Ok(idx_opt) => match idx_opt {
            Some(idx) => {
                assert(call_ensures(f, (s[idx as int],), Ok::<bool, E>(true)));
                if idx < k {
                    assert(call_ensures(f, (s[k],), Ok::<bool, E>(false)));
                }
            },
            None => {
                assert(call_ensures(f, (s[k],), Ok::<bool, E>(false)));
            },
        },
        Err(e0) => {
            let k0 = choose|k0: int| #[trigger] rerrored_at(f, s, rem, k0, e0);
            assert(call_ensures(f, (s[k0],), Err::<bool, E>(e0)));
            if k0 < k {
                assert(call_ensures(f, (s[k],), Ok::<bool, E>(false)));
            }
            assert(k0 == k);
        },
    }
}

} // verus!
