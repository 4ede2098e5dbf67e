use std::cell::RefCell;

use try_iterator::enumerate;
use try_iterator::Chained;
use try_iterator::Reversed;
use try_iterator::Skipped;
use try_iterator::SliceTryIter;
use try_iterator::Taken;
use try_iterator::TryIterator;
use try_iterator::TryReverseIterator;
use try_iterator::VecTryIter;

fn eq_pred(target: &'static str) -> impl Fn(Result<&'static str, u32>) -> Result<bool, u32> {
    move |item: Result<&'static str, u32>| {
        let s = item?;
        Ok(s == target)
    }
}

#[test]
fn try_all_all_match() {
    let items = vec![Ok("foo"), Ok("foo"), Ok("foo")];
    let mut it = VecTryIter::new(items);
    let res = it.try_all(eq_pred("foo"));
    assert_eq!(res, Ok(true));
    assert_eq!(it.len(), 0);
}

#[test]
fn try_all_propagates_error() {
    let items = vec![Ok("foo"), Err(4444), Ok("foo")];
    let mut it = VecTryIter::new(items);
    let res = it.try_all(eq_pred("foo"));
    assert_eq!(res, Err(4444));
    assert_eq!(it.len(), 1);
}

#[test]
fn try_all_stops_on_false() {
    let items = vec![Ok("foo"), Ok("bar"), Ok("foo"), Ok("foo")];
    let mut it = VecTryIter::new(items);
    let res = it.try_all(eq_pred("foo"));
    assert_eq!(res, Ok(false));
    assert_eq!(it.len(), 2);
}

#[test]
fn try_any_finds_match() {
    let items = vec![Ok("foo"), Ok("ayy"), Ok("bar")];
    let mut it = VecTryIter::new(items);
    let res = it.try_any(eq_pred("bar"));
    assert_eq!(res, Ok(true));
    assert_eq!(it.len(), 0);
}

#[test]
fn try_any_propagates_error() {
    let items = vec![Ok("foo"), Err(7777), Ok("bar")];
    let mut it = VecTryIter::new(items);
    let res = it.try_any(eq_pred("bar"));
    assert_eq!(res, Err(7777));
    assert_eq!(it.len(), 1);
}

#[test]
fn try_any_exhausts_without_match() {
    let items = vec![Ok("foo"), Ok("ayy")];
    let mut it = VecTryIter::new(items);
    let res = it.try_any(eq_pred("bar"));
    assert_eq!(res, Ok(false));
    assert_eq!(it.len(), 0);
}

#[test]
fn try_position_finds_index() {
    let items = vec![Ok("foo"), Ok("ayy"), Ok("bar")];
    let mut it = VecTryIter::new(items);
    let pos = it.try_position(eq_pred("bar"));
    assert_eq!(pos, Ok(Some(2)));
}

#[test]
fn try_position_propagates_error_before_match() {
    // The error at index 1 is hit first: the matching element at index 2 is
    // never examined and stays in the iterator.
    let items = vec![Ok("foo"), Err(8888), Ok("bar")];
    let mut it = VecTryIter::new(items);
    let pos = it.try_position(eq_pred("bar"));
    assert_eq!(pos, Err(8888));
    assert_eq!(it.len(), 1);
    assert_eq!(it.next(), Some(Ok("bar")));
}

#[test]
fn try_position_exhausts_without_match() {
    let items = vec![Ok("foo"), Ok("ayy"), Ok("bar")];
    let mut it = VecTryIter::new(items);
    let pos = it.try_position(eq_pred("nope"));
    assert_eq!(pos, Ok(None));
}

#[test]
fn try_position_first_of_several_matches() {
    let items = vec![Ok("a"), Ok("b"), Ok("a")];
    let mut it = VecTryIter::new(items);
    let pos = it.try_position(eq_pred("a"));
    assert_eq!(pos, Ok(Some(0)));
}

#[test]
fn try_rposition_reports_forward_index() {
    let items = vec![Ok("foo"), Ok("ayy"), Ok("bar")];
    let mut it = VecTryIter::new(items);
    let pos = it.try_rposition(eq_pred("foo"));
    assert_eq!(pos, Ok(Some(0)));
}

#[test]
fn try_rposition_last_of_several_matches() {
    let items = vec![Ok("a"), Ok("b"), Ok("a")];
    let mut it = VecTryIter::new(items);
    let pos = it.try_rposition(eq_pred("a"));
    assert_eq!(pos, Ok(Some(2)));
}

#[test]
fn try_rposition_single_match_at_front() {
    let items = vec![Ok("a"), Ok("b"), Ok("c")];
    let mut it = VecTryIter::new(items);
    let pos = it.try_rposition(eq_pred("a"));
    assert_eq!(pos, Ok(Some(0)));
}

#[test]
fn try_rposition_propagates_error_during_reverse_scan() {
    // Scanning runs from the back, so the error at index 1 is hit before the
    // matching element at index 0 is ever reached.
    let items = vec![Ok("foo"), Err(9999), Ok("bar")];
    let mut it = VecTryIter::new(items);
    let pos = it.try_rposition(eq_pred("foo"));
    assert_eq!(pos, Err(9999));
    assert_eq!(it.len(), 1);
    assert_eq!(it.next(), Some(Ok("foo")));
}

#[test]
fn try_rposition_exhausts_without_match() {
    let items = vec![Ok("foo"), Ok("ayy")];
    let mut it = VecTryIter::new(items);
    let pos = it.try_rposition(eq_pred("bar"));
    assert_eq!(pos, Ok(None));
}

fn never_called(_item: u64) -> Result<bool, u32> {
    panic!("the predicate must not be invoked on an empty sequence");
}

#[test]
fn scans_over_borrowed_slice() {
    // Scanning by reference leaves the underlying storage untouched.
    let items: Vec<Result<&'static str, u32>> = vec![Ok("foo"), Ok("foo"), Ok("foo")];
    let mut it = SliceTryIter::new(&items);
    let res = it.try_all(|item: &Result<&'static str, u32>| -> Result<bool, u32> {
        let s = (*item)?;
        Ok(s == "foo")
    });
    assert_eq!(res, Ok(true));
    assert_eq!(items.len(), 3);

    let mut it = SliceTryIter::new(&items);
    let pos = it.try_rposition(|item: &Result<&'static str, u32>| -> Result<bool, u32> {
        let s = (*item)?;
        Ok(s == "foo")
    });
    assert_eq!(pos, Ok(Some(2)));
}

#[test]
fn empty_sequence_laws() {
    let mut it = VecTryIter::new(Vec::<u64>::new());
    assert_eq!(it.try_all(never_called), Ok(true));
    assert_eq!(it.try_any(never_called), Ok(false));
    assert_eq!(it.try_position(never_called), Ok(None));
    assert_eq!(it.try_rposition(never_called), Ok(None));
}

#[test]
fn always_true_predicate_satisfies_try_all() {
    let mut it = VecTryIter::new(vec![5u64, 6, 7, 8]);
    assert_eq!(it.try_all(|_x| Ok::<bool, u32>(true)), Ok(true));
}

#[test]
fn always_false_predicate_fails_try_any() {
    let mut it = VecTryIter::new(vec![5u64, 6, 7, 8]);
    assert_eq!(it.try_any(|_x| Ok::<bool, u32>(false)), Ok(false));
}

#[test]
fn forward_short_circuit_examines_nothing_after_decision() {
    let seen: RefCell<Vec<u64>> = RefCell::new(Vec::new());
    let mut it = VecTryIter::new(vec![1u64, 2, 3, 4]);
    let res = it.try_any(|x| {
        seen.borrow_mut().push(x);
        Ok::<bool, u32>(x == 2)
    });
    assert_eq!(res, Ok(true));
    assert_eq!(*seen.borrow(), vec![1, 2]);
    assert_eq!(it.len(), 2);
}

#[test]
fn reverse_short_circuit_examines_nothing_below_decision() {
    let seen: RefCell<Vec<u64>> = RefCell::new(Vec::new());
    let mut it = VecTryIter::new(vec![1u64, 2, 3, 4]);
    let res = it.try_rposition(|x| {
        seen.borrow_mut().push(x);
        Ok::<bool, u32>(x == 3)
    });
    assert_eq!(res, Ok(Some(2)));
    assert_eq!(*seen.borrow(), vec![4, 3]);
    assert_eq!(it.len(), 2);
}

#[test]
fn error_short_circuits_try_all() {
    let seen: RefCell<Vec<u64>> = RefCell::new(Vec::new());
    let mut it = VecTryIter::new(vec![1u64, 2, 3, 4]);
    let res = it.try_all(|x| {
        seen.borrow_mut().push(x);
        if x == 2 {
            Err(2222u32)
        } else {
            Ok(true)
        }
    });
    assert_eq!(res, Err(2222));
    assert_eq!(*seen.borrow(), vec![1, 2]);
    assert_eq!(it.len(), 2);
}

#[test]
fn vec_iter_produces_in_order() {
    let mut it = VecTryIter::new(vec![10u64, 20, 30]);
    assert_eq!(it.len(), 3);
    assert_eq!(it.next(), Some(10));
    assert_eq!(it.next_back(), Some(30));
    assert_eq!(it.len(), 1);
    assert_eq!(it.next(), Some(20));
    assert_eq!(it.next(), None);
    assert_eq!(it.next_back(), None);
    assert_eq!(it.len(), 0);
}

#[test]
fn reversed_produces_back_to_front() {
    let mut it = Reversed::new(VecTryIter::new(vec![10u64, 20, 30]));
    assert_eq!(it.len(), 3);
    assert_eq!(it.next(), Some(30));
    assert_eq!(it.next_back(), Some(10));
    assert_eq!(it.next(), Some(20));
    assert_eq!(it.next(), None);
}

#[test]
fn scans_over_chained_iterators() {
    let mut it = Chained::new(
        VecTryIter::new(vec![1u64, 2]),
        VecTryIter::new(vec![3u64, 4]),
    );
    assert_eq!(it.try_position(|x| Ok::<bool, u32>(x == 4)), Ok(Some(3)));

    let mut it = Chained::new(
        VecTryIter::new(vec![1u64, 2]),
        VecTryIter::new(vec![3u64, 4]),
    );
    assert_eq!(it.next(), Some(1));
    assert_eq!(it.next(), Some(2));
    assert_eq!(it.next(), Some(3));
    assert_eq!(it.next(), Some(4));
    assert_eq!(it.next(), None);
}

#[test]
fn scans_over_taken_iterator() {
    // Only the front two elements are visible: the match at index 2 of the
    // underlying vector is out of bounds.
    let mut it = Taken::new(VecTryIter::new(vec![1u64, 2, 3]), 2);
    assert_eq!(it.try_any(|x| Ok::<bool, u32>(x == 3)), Ok(false));

    let mut it = Taken::new(VecTryIter::new(vec![1u64, 2, 3]), 5);
    assert_eq!(it.try_position(|x| Ok::<bool, u32>(x == 3)), Ok(Some(2)));

    let mut it = Taken::new(VecTryIter::new(vec![1u64, 2, 3]), 0);
    assert_eq!(it.try_all(never_called), Ok(true));
}

#[test]
fn scans_over_skipped_iterator() {
    // The front two elements are discarded: the first visible element is 3,
    // and indices are counted over the visible elements only.
    let mut it = Skipped::new(VecTryIter::new(vec![1u64, 2, 3, 4]), 2);
    assert_eq!(it.try_position(|x| Ok::<bool, u32>(x == 4)), Ok(Some(1)));

    let mut it = Skipped::new(VecTryIter::new(vec![1u64, 2, 3, 4]), 9);
    assert_eq!(it.try_all(never_called), Ok(true));

    let mut it = Skipped::new(VecTryIter::new(vec![1u64, 2, 3, 4]), 0);
    assert_eq!(it.next(), Some(1));
}

#[test]
fn scans_over_enumerated_iterator() {
    let mut it = enumerate(VecTryIter::new(vec![7u64, 8, 9]));
    assert_eq!(it.len(), 3);
    assert_eq!(it.next(), Some((0, 7)));
    assert_eq!(it.next_back(), Some((2, 9)));

    let mut it = enumerate(VecTryIter::new(vec![7u64, 8, 9]));
    let res = it.try_any(|pair: (usize, u64)| Ok::<bool, u32>(pair.0 == 1 && pair.1 == 8));
    assert_eq!(res, Ok(true));
}

#[test]
fn scans_over_reversed_iterator() {
    let mut it = Reversed::new(VecTryIter::new(vec![10u64, 20, 30]));
    // The reversed order is [30, 20, 10]: the first element equal to 10 sits
    // at index 2 of the reversed sequence.
    assert_eq!(it.try_position(|x| Ok::<bool, u32>(x == 10)), Ok(Some(2)));

    let mut it = Reversed::new(VecTryIter::new(vec![10u64, 20, 30]));
    assert_eq!(it.try_rposition(|x| Ok::<bool, u32>(x == 30)), Ok(Some(0)));

    let mut it = Reversed::new(VecTryIter::new(vec![10u64, 20, 30]));
    assert_eq!(it.try_all(|x| Ok::<bool, u32>(x >= 10)), Ok(true));
}
