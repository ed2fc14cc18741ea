use clock::exchange::NTPResult;
use clock::message::{NTPMessage, ParseError};
use clock::timestamp::{CalendarTime, NTPTimestamp};

fn at_nanos(n: i128) -> CalendarTime {
    let secs = n.div_euclid(1_000_000_000) as i64;
    let nanos = n.rem_euclid(1_000_000_000) as u32;
    CalendarTime::new(secs, nanos).unwrap()
}

fn ms(n: i128) -> i128 {
    n * 1_000_000
}

fn exchange(t1: i128, t2: i128, t3: i128, t4: i128) -> NTPResult {
    NTPResult { t1: at_nanos(t1), t2: at_nanos(t2), t3: at_nanos(t3), t4: at_nanos(t4) }
}

fn response_with(rx: NTPTimestamp, tx: NTPTimestamp) -> NTPMessage {
    let mut bytes = vec![0u8; 48];
    bytes[32..36].copy_from_slice(&rx.seconds.to_be_bytes());
    bytes[36..40].copy_from_slice(&rx.fraction.to_be_bytes());
    bytes[40..44].copy_from_slice(&tx.seconds.to_be_bytes());
    bytes[44..48].copy_from_slice(&tx.fraction.to_be_bytes());
    NTPMessage::from_bytes(bytes)
}

#[test]
fn synchronized_exchange_has_zero_offset_and_delay() {
    let base = ms(1_700_000_000_000) + 123_456;
    let r = exchange(base, base, base, base);
    assert_eq!(r.offset(), 0);
    assert_eq!(r.delay(), 0);
}

#[test]
fn delay_and_offset_formulas() {
    let base = ms(1_700_000_000_000);
    let r = exchange(base, base + ms(150), base + ms(170), base + ms(100));
    assert_eq!(r.delay(), 80);
    assert_eq!(r.offset(), 110);
    let r = exchange(base, base + ms(30), base + ms(40), base + ms(100));
    assert_eq!(r.delay(), 90);
    assert_eq!(r.offset(), -15);
}

#[test]
fn results_round_toward_zero() {
    let base = ms(1_000);
    let r = exchange(base, base, base + 2_999_999, base);
    assert_eq!(r.delay(), -2);
    assert_eq!(r.offset(), 1);
    let r = exchange(base, base, base, base + 2_999_999);
    assert_eq!(r.delay(), 2);
    assert_eq!(r.offset(), -1);
}

#[test]
fn swapped_roles_flip_the_sign() {
    let base = ms(1_700_000_000_000);
    let r = exchange(base, base + ms(150), base + ms(150), base + ms(100));
    assert_eq!(r.offset(), 100);
    assert_eq!(r.delay(), 100);
    let s = exchange(base + ms(150), base, base + ms(100), base + ms(150));
    assert_eq!(s.offset(), -100);
    assert_eq!(s.delay(), -100);
}

#[test]
fn remote_ahead_gives_positive_offset() {
    let base = ms(1_700_000_000_000);
    let r = exchange(base, base + ms(100), base + ms(100), base);
    assert_eq!(r.offset(), 100);
    assert!(r.offset() > 0);
    assert_eq!(r.delay(), 0);
    let s = exchange(base + ms(100), base, base, base + ms(100));
    assert_eq!(s.offset(), -100);
}

#[test]
fn from_response_reads_server_times() {
    let t1 = at_nanos(ms(1_700_000_000_000));
    let t4 = at_nanos(ms(1_700_000_000_030));
    let rx = NTPTimestamp { seconds: 2_208_988_800 + 1_700_000_000, fraction: 0x4000_0000 };
    let tx = NTPTimestamp { seconds: 2_208_988_800 + 1_700_000_000, fraction: 0x8000_0000 };
    let r = NTPResult::from_response(t1, &response_with(rx, tx), t4).unwrap();
    assert_eq!(r.t1, t1);
    assert_eq!(r.t2, CalendarTime { secs: 1_700_000_000, nanos: 250_000_000 });
    assert_eq!(r.t3, CalendarTime { secs: 1_700_000_000, nanos: 500_000_000 });
    assert_eq!(r.t4, t4);
    let short = NTPMessage::from_bytes(vec![0u8; 47]);
    assert_eq!(NTPResult::from_response(t1, &short, t4), Err(ParseError::Truncated));
}

fn mock_exchange(latency: i128, skew: i128) -> NTPResult {
    let processing = ms(5);
    let t1 = ms(1_700_000_000_000) + 777;
    let t2 = t1 + latency + skew;
    let t3 = t2 + processing;
    let t4 = t1 + latency + processing + latency;
    let response = response_with(
        NTPTimestamp::from_calendar(at_nanos(t2)),
        NTPTimestamp::from_calendar(at_nanos(t3)),
    );
    NTPResult::from_response(at_nanos(t1), &response, at_nanos(t4)).unwrap()
}

#[test]
fn mock_server_end_to_end() {
    let r = mock_exchange(ms(10), 0);
    assert!((r.delay() - 20).abs() <= 1);
    assert!(r.offset().abs() <= 1);
    let r = mock_exchange(ms(10), ms(37));
    assert!((r.delay() - 20).abs() <= 1);
    assert!((r.offset() - 37).abs() <= 1);
    let r = mock_exchange(ms(3), -ms(250));
    assert!((r.delay() - 6).abs() <= 1);
    assert!((r.offset() + 250).abs() <= 1);
}
