use timer_future::closure::{plan, Counter as Cached, Workout};
use timer_future::iter::Counter;

#[test]
fn call_with_different_values() {
    let mut c = Cached::new(|a| a);
    let a = c.value(1);
    let b = c.value(2);
    assert_eq!(b, a);
}

#[test]
fn test_counter() {
    let mut counter = Counter::new();
    assert_eq!(counter.next(), Some(1));
    assert_eq!(counter.next(), Some(2));
    assert_eq!(counter.next(), Some(3));
    assert_eq!(counter.next(), Some(4));
    assert_eq!(counter.next(), Some(5));
    assert_eq!(counter.next(), None);
}

#[test]
fn zip_two_array_with_different_length() {
    let v1 = [1, 2, 3, 4, 5];
    let v2 = [2, 3, 4, 5];
    let zipped: Vec<_> = v1.into_iter().zip(v2).collect();
    println!("{:?}", zipped);
}

fn items(mut counter: Counter) -> impl Iterator<Item = u32> {
    std::iter::from_fn(move || counter.next())
}

#[test]
fn zip_map_filter_and_sum() {
    let sum: u32 = items(Counter::new())
        .zip(items(Counter::new()).skip(1))
        .map(|(a, b)| a * b)
        .filter(|x| x % 3 == 0)
        .sum();
    assert_eq!(18, sum);
}

#[test]
fn counter_stays_exhausted() {
    let mut counter = Counter::new();
    let mut seen = Vec::new();
    for _ in 0..9 {
        seen.push(counter.next());
    }
    assert_eq!(seen, vec![Some(1), Some(2), Some(3), Some(4), Some(5), None, None, None, None]);
}

#[test]
fn cached_value_is_computed_once() {
    let mut c = Cached::new(|a: u32| a * 10);
    assert_eq!(c.value(4), 40);
    assert_eq!(c.value(5), 40);
    assert_eq!(c.value(0), 40);
}

#[test]
fn plan_goes_by_intensity_then_by_chance() {
    assert_eq!(plan(10, 7), Workout::Light(10));
    assert_eq!(plan(0, 3), Workout::Light(0));
    assert_eq!(plan(24, 9), Workout::Light(24));
    assert_eq!(plan(25, 9), Workout::Rest);
    assert_eq!(plan(25, 0), Workout::Rest);
    assert_eq!(plan(25, 10), Workout::Heavy(25));
    assert_eq!(plan(u32::MAX, u32::MAX - 1), Workout::Heavy(u32::MAX));
}
