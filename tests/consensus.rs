use clock::aggregate::{check_time, weighted_mean, AggregationError};
use clock::exchange::NTPResult;
use clock::timestamp::CalendarTime;

fn at_ms(n: i64) -> CalendarTime {
    CalendarTime::new(n.div_euclid(1000), (n.rem_euclid(1000) * 1_000_000) as u32).unwrap()
}

fn exchange(t1: i64, t2: i64, t3: i64, t4: i64) -> NTPResult {
    NTPResult { t1: at_ms(t1), t2: at_ms(t2), t3: at_ms(t3), t4: at_ms(t4) }
}

fn at_nanos(n: i128) -> CalendarTime {
    CalendarTime::new(n.div_euclid(1_000_000_000) as i64, n.rem_euclid(1_000_000_000) as u32).unwrap()
}

fn sample(offset: i64, delay: i64) -> NTPResult {
    let base: i128 = 1_700_000_000_000_000_000;
    let server = base + offset as i128 * 1_000_000 + delay as i128 * 500_000;
    let r = NTPResult {
        t1: at_nanos(base),
        t2: at_nanos(server),
        t3: at_nanos(server),
        t4: at_nanos(base + delay as i128 * 1_000_000),
    };
    assert_eq!((r.offset(), r.delay()), (offset, delay));
    r
}

#[test]
fn lower_delay_dominates_weighted_mean() {
    let values = vec![10i64, 20];
    let weights = vec![10_000u64, 2_500];
    let mean = weighted_mean(&values, &weights).unwrap();
    assert_eq!(mean, (10 * 10_000 + 20 * 2_500) / (10_000 + 2_500));
    assert_eq!(mean, 12);
    assert!((mean - 10).abs() < (mean - 20).abs());
}

#[test]
fn check_time_exact_weights() {
    assert_eq!(check_time(&vec![sample(1, 3), sample(59, 7)]), Ok(10));
    assert_eq!(check_time(&vec![sample(0, 1), sample(5, 2)]), Ok(1));
    assert_eq!(check_time(&vec![sample(0, 3), sample(5, 6)]), Ok(1));
    assert_eq!(check_time(&vec![sample(0, -3), sample(5, 6)]), Ok(1));
    assert_eq!(check_time(&vec![sample(-1, 3), sample(-59, 7)]), Ok(-10));
}

#[test]
fn check_time_keeps_large_delays() {
    assert_eq!(check_time(&vec![sample(7, 2_000_000)]), Ok(7));
    assert_eq!(check_time(&vec![sample(-7, 2_000_000)]), Ok(-7));
    assert_eq!(check_time(&vec![sample(100, 2_000_000), sample(0, 2)]), Ok(0));
}

#[test]
fn check_time_many_servers() {
    let mut rs = Vec::new();
    for k in 1..=40i64 {
        rs.push(sample(1000, 997 + k));
    }
    assert_eq!(check_time(&rs), Ok(1000));
    rs.push(sample(-1000, 1));
    assert_eq!(check_time(&rs), Ok(-999));
}

#[test]
fn weighted_mean_rounds_toward_zero() {
    assert_eq!(weighted_mean(&vec![-3, -4], &vec![1, 1]), Some(-3));
    assert_eq!(weighted_mean(&vec![3, 4], &vec![1, 1]), Some(3));
    assert_eq!(weighted_mean(&vec![7], &vec![5]), Some(7));
}

#[test]
fn weighted_mean_without_weight() {
    assert_eq!(weighted_mean(&vec![], &vec![]), None);
    assert_eq!(weighted_mean(&vec![5, 6], &vec![0, 0]), None);
}

#[test]
fn check_time_without_servers() {
    assert_eq!(check_time(&vec![]), Err(AggregationError::NoData));
}

#[test]
fn check_time_skips_zero_delay() {
    let base = 1_700_000_000_000i64;
    let synced = exchange(base, base + 50, base + 50, base);
    assert_eq!((synced.offset(), synced.delay()), (50, 0));
    assert_eq!(check_time(&vec![synced]), Err(AggregationError::NoData));
    let other = exchange(base, base + 15, base + 15, base + 10);
    assert_eq!((other.offset(), other.delay()), (10, 10));
    assert_eq!(check_time(&vec![synced, other]), Ok(10));
}

#[test]
fn check_time_weights_by_delay() {
    let base = 1_700_000_000_000i64;
    let fast = exchange(base, base + 15, base + 15, base + 10);
    let slow = exchange(base, base + 30, base + 30, base + 20);
    assert_eq!((fast.offset(), fast.delay()), (10, 10));
    assert_eq!((slow.offset(), slow.delay()), (20, 20));
    let mean = check_time(&vec![fast, slow]).unwrap();
    assert_eq!(mean, (10 * 10_000 + 20 * 2_500) / (10_000 + 2_500));
    assert!((mean - 10).abs() < (mean - 20).abs());
    assert_eq!(check_time(&vec![slow, fast]), Ok(12));
}

