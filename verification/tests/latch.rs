use latch_iterator::IntoLatchIterator;
use latch_iterator::LatchIterator;

fn drain<T, StartPred, StopPred>(it: &mut LatchIterator<T, StartPred, StopPred>) -> Vec<T>
where
    StartPred: Fn(&T) -> bool,
    StopPred: Fn(&T) -> bool,
{
    let mut out = Vec::new();
    while let Some(x) = it.next() {
        out.push(x);
    }
    out
}

fn is_subsequence_of(a: &[u32], b: &[u32]) -> bool {
    let mut j = 0;
    for x in a {
        loop {
            if j == b.len() {
                return false;
            }
            j += 1;
            if b[j - 1] == *x {
                break;
            }
        }
    }
    true
}

#[test]
fn range_test() {
    let results = (1_u32..25_u32)
        .collect::<Vec<_>>()
        .latch(|&num| num % 5 == 0, |&num| num % 7 == 0)
        .collect_all();
    assert_eq!(
        results,
        vec!(5, 6, 7, 10, 11, 12, 13, 14, 15, 16, 17, 18, 19, 20, 21)
    );
}

#[test]
fn basic_cycle_via_next() {
    let mut it = (1_u32..25_u32)
        .collect::<Vec<_>>()
        .latch(|&num| num % 5 == 0, |&num| num % 7 == 0);
    assert_eq!(it.next(), Some(5));
    assert_eq!(it.next(), Some(6));
    assert_eq!(it.next(), Some(7));
    assert_eq!(it.next(), Some(10));
    let rest = drain(&mut it);
    assert_eq!(rest, vec![11, 12, 13, 14, 15, 16, 17, 18, 19, 20, 21]);
    assert_eq!(it.next(), None);
    assert_eq!(it.next(), None);
}

#[test]
fn direct_constructor() {
    let input: Vec<u32> = (1..25).collect();
    let mut it = LatchIterator::new(input, |num: &u32| num % 5 == 0, |num: &u32| num % 7 == 0);
    let results = drain(&mut it);
    assert_eq!(
        results,
        vec![5, 6, 7, 10, 11, 12, 13, 14, 15, 16, 17, 18, 19, 20, 21]
    );
}

#[test]
fn never_starts_yields_nothing() {
    let mut it = vec![1_u32, 2, 3, 4, 5].latch(|_| false, |_| true);
    assert_eq!(it.next(), None);
    let mut it2 = (0_u32..100).collect::<Vec<_>>().latch(|&n| n > 1000, |_| true);
    assert_eq!(it2.collect_all(), Vec::<u32>::new());
}

#[test]
fn starts_but_never_stops() {
    let out = (1_u32..10).collect::<Vec<_>>().latch(|&n| n == 4, |_| false).collect_all();
    assert_eq!(out, vec![4, 5, 6, 7, 8, 9]);
}

#[test]
fn start_and_stop_on_same_element() {
    // 6 satisfies both predicates while the adapter is unlatched: it is
    // emitted once and treated purely as a start event, so 7 is emitted too
    // and the latch closes only at 8.
    let out = (1_u32..11).collect::<Vec<_>>().latch(|&n| n % 6 == 0, |&n| n % 2 == 0).collect_all();
    assert_eq!(out, vec![6, 7, 8]);
}

#[test]
fn output_is_bounded_subsequence() {
    let input: Vec<u32> = (1..15).collect();
    let out = input.clone().latch(|&n| n % 2 == 0, |&n| n % 3 == 0).collect_all();
    assert!(out.len() <= input.len());
    assert!(is_subsequence_of(&out, &input));
}

#[test]
fn construction_is_lazy() {
    let starts = core::cell::Cell::new(0_u32);
    let stops = core::cell::Cell::new(0_u32);
    let mut it = vec![5_u32, 6, 7].latch(
        |&n| {
            starts.set(starts.get() + 1);
            n % 5 == 0
        },
        |&n| {
            stops.set(stops.get() + 1);
            n % 7 == 0
        },
    );
    assert_eq!(starts.get(), 0);
    assert_eq!(stops.get(), 0);
    assert_eq!(it.next(), Some(5));
    assert_eq!(starts.get(), 1);
    assert_eq!(stops.get(), 0);
}

#[test]
fn construction_alone_calls_no_predicate() {
    let it = vec![1_u32, 2, 3].latch(
        |_: &u32| -> bool { panic!("start predicate evaluated") },
        |_: &u32| -> bool { panic!("stop predicate evaluated") },
    );
    drop(it);
}

#[test]
fn empty_input_yields_empty_output() {
    let mut it = Vec::<u32>::new().latch(|_| true, |_| true);
    assert_eq!(it.next(), None);
    let mut it2 = Vec::<u32>::new().latch(|_| false, |_| false);
    assert_eq!(it2.collect_all(), Vec::<u32>::new());
}

#[test]
fn repeating_cycles() {
    let out = (1_u32..=20).collect::<Vec<_>>().latch(|&n| n % 3 == 0, |&n| n % 4 == 0).collect_all();
    assert_eq!(out, vec![3, 4, 6, 7, 8, 9, 10, 11, 12, 15, 16, 18, 19, 20]);
}

#[test]
fn stop_element_is_still_emitted() {
    let out = vec![2_u32, 9, 3].latch(|&n| n == 2, |&n| n == 9).collect_all();
    assert_eq!(out, vec![2, 9]);
}

#[test]
fn relatch_after_stop_scans_again() {
    // After 9 closes the latch, 3 is scanned unlatched and does not match the
    // start predicate, so it is discarded; 2 re-opens the latch.
    let out = vec![2_u32, 9, 3, 2, 4].latch(|&n| n == 2, |&n| n == 9).collect_all();
    assert_eq!(out, vec![2, 9, 2, 4]);
}
