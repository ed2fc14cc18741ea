use clock::message::{NTPMessage, ParseError};
use clock::timestamp::{CalendarTime, NTPTimestamp};

fn response_with(rx: NTPTimestamp, tx: NTPTimestamp) -> NTPMessage {
    let mut bytes = vec![0u8; 48];
    bytes[32..36].copy_from_slice(&rx.seconds.to_be_bytes());
    bytes[36..40].copy_from_slice(&rx.fraction.to_be_bytes());
    bytes[40..44].copy_from_slice(&tx.seconds.to_be_bytes());
    bytes[44..48].copy_from_slice(&tx.fraction.to_be_bytes());
    NTPMessage::from_bytes(bytes)
}

#[test]
fn client_request_header_byte() {
    let m = NTPMessage::client();
    assert_eq!(m.data.len(), 48);
    assert_eq!(m.data[0], 0b0001_1011);
    assert!(m.data[1..].iter().all(|b| *b == 0));
}

#[test]
fn new_message_is_zeroed() {
    let m = NTPMessage::new();
    assert_eq!(m.data, vec![0u8; 48]);
}

#[test]
fn parse_timestamp_reads_big_endian() {
    let mut bytes = vec![0u8; 16];
    bytes[4..12].copy_from_slice(&[0x83, 0xAA, 0x7E, 0x80, 0x80, 0x00, 0x00, 0x01]);
    let m = NTPMessage::from_bytes(bytes);
    let t = m.parse_timestamp(4).unwrap();
    assert_eq!(t.seconds, 2_208_988_800);
    assert_eq!(t.fraction, 0x8000_0001);
}

#[test]
fn parse_timestamp_truncated_buffer() {
    let m = NTPMessage::from_bytes(vec![1u8; 10]);
    assert_eq!(m.parse_timestamp(4), Err(ParseError::Truncated));
    assert_eq!(m.parse_timestamp(3), Err(ParseError::Truncated));
    assert_eq!(m.parse_timestamp(100), Err(ParseError::Truncated));
    assert_eq!(m.parse_timestamp(usize::MAX), Err(ParseError::Truncated));
    assert!(m.parse_timestamp(2).is_ok());
    let full = NTPMessage::new();
    assert_eq!(full.parse_timestamp(41), Err(ParseError::Truncated));
    assert_eq!(full.parse_timestamp(40), Ok(NTPTimestamp { seconds: 0, fraction: 0 }));
}

#[test]
fn receive_and_transmit_offsets() {
    let rx = NTPTimestamp { seconds: 0x0102_0304, fraction: 0x0506_0708 };
    let tx = NTPTimestamp { seconds: 0x1112_1314, fraction: 0x1516_1718 };
    let m = response_with(rx, tx);
    assert_eq!(m.rx_time(), Ok(rx));
    assert_eq!(m.tx_time(), Ok(tx));
    let short = NTPMessage::from_bytes(vec![0u8; 44]);
    assert!(short.rx_time().is_ok());
    assert_eq!(short.tx_time(), Err(ParseError::Truncated));
    let shorter = NTPMessage::from_bytes(vec![0u8; 39]);
    assert_eq!(shorter.rx_time(), Err(ParseError::Truncated));
}

#[test]
fn protocol_to_calendar_exact_values() {
    let t = NTPTimestamp { seconds: 2_208_988_800, fraction: 0x8000_0000 }.to_calendar();
    assert_eq!(t, CalendarTime { secs: 0, nanos: 500_000_000 });
    let t = NTPTimestamp { seconds: 0, fraction: 0 }.to_calendar();
    assert_eq!(t, CalendarTime { secs: -2_208_988_800, nanos: 0 });
    let t = NTPTimestamp { seconds: u32::MAX, fraction: u32::MAX }.to_calendar();
    assert_eq!(t, CalendarTime { secs: 2_085_978_495, nanos: 999_999_999 });
    let t = NTPTimestamp { seconds: 0, fraction: 1 }.to_calendar();
    assert_eq!(t.nanos, 0);
    let t = NTPTimestamp { seconds: 0, fraction: 5 }.to_calendar();
    assert_eq!(t.nanos, 1);
}

#[test]
fn calendar_to_protocol_exact_values() {
    let p = NTPTimestamp::from_calendar(CalendarTime { secs: 0, nanos: 500_000_000 });
    assert_eq!(p, NTPTimestamp { seconds: 2_208_988_800, fraction: 0x8000_0000 });
    let p = NTPTimestamp::from_calendar(CalendarTime { secs: 0, nanos: 1 });
    assert_eq!(p.fraction, 5);
    let p = NTPTimestamp::from_calendar(CalendarTime { secs: 2_085_978_496, nanos: 0 });
    assert_eq!(p.seconds, 0);
    let p = NTPTimestamp::from_calendar(CalendarTime { secs: -2_208_988_801, nanos: 0 });
    assert_eq!(p.seconds, u32::MAX);
}

#[test]
fn calendar_round_trip() {
    let secs = [-2_208_988_800i64, -1, 0, 1_700_000_000, 2_085_978_495];
    let nanos = [0u32, 1, 2, 3, 123_456_789, 500_000_000, 999_999_998, 999_999_999];
    for s in secs {
        for n in nanos {
            let t = CalendarTime::new(s, n).unwrap();
            assert_eq!(NTPTimestamp::from_calendar(t).to_calendar(), t);
        }
    }
}

#[test]
fn calendar_time_range() {
    assert!(CalendarTime::new(0, 999_999_999).is_some());
    assert!(CalendarTime::new(0, 1_000_000_000).is_none());
    assert!(CalendarTime::new(10_000_000_000_000, 0).is_some());
    assert!(CalendarTime::new(10_000_000_000_001, 0).is_none());
    assert!(CalendarTime::new(-10_000_000_000_001, 0).is_none());
    assert_eq!(CalendarTime::new(-2, 5).unwrap().instant_nanos(), -1_999_999_995);
}
