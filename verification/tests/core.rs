use netrate::estimator::{
    counter_delta, effective_dt_ms, ema_step, inst_rate, parse_counters, CounterSnapshot,
    EstimatorState, ALPHA_MILLI,
};
use netrate::route::default_route_iface;
use netrate::text::{parse_u64_bytes, trim_copy};

#[test]
fn delta_regression_is_zero() {
    assert_eq!(counter_delta(100, 50), 0);
    assert_eq!(counter_delta(u64::MAX, 0), 0);
    assert_eq!(counter_delta(1, 0), 0);
}

#[test]
fn delta_normal() {
    assert_eq!(counter_delta(100, 300), 200);
    assert_eq!(counter_delta(0, 0), 0);
}

#[test]
fn dt_is_floored_at_one_millisecond() {
    assert_eq!(effective_dt_ms(5, 5), 1);
    assert_eq!(effective_dt_ms(5, 4), 1);
    assert_eq!(effective_dt_ms(5, 6), 1);
    assert_eq!(effective_dt_ms(0, 250), 250);
}

#[test]
fn ema_update_is_deterministic() {
    // alpha = 0.35, previous average 100.0, instantaneous 200.0:
    // 0.35 * 200 + 0.65 * 100 = 135.0, here in millionths of a KiB/s.
    assert_eq!(ema_step(350, 200_000_000, 100_000_000), 135_000_000);
}

#[test]
fn inst_rate_exact() {
    // 1024 bytes over 1000 ms is exactly 1.0 KiB/s.
    assert_eq!(inst_rate(1024, 1000), 1_000_000);
    // 512 bytes over 1000 ms is exactly 0.5 KiB/s.
    assert_eq!(inst_rate(512, 1000), 500_000);
    assert_eq!(inst_rate(0, 1000), 0);
}

#[test]
fn first_reading_seeds_second_emits() {
    let mut st = EstimatorState::new();
    let name = b"eth0".to_vec();
    let s1 = CounterSnapshot { rx_bytes: 10, tx_bytes: 20, up: true, t_ms: 0 };
    let s2 = CounterSnapshot { rx_bytes: 30, tx_bytes: 40, up: true, t_ms: 1000 };
    assert!(st.update(&name, s1, ALPHA_MILLI).is_none());
    assert!(st.update(&name, s2, ALPHA_MILLI).is_some());
}

#[test]
fn end_to_end_eth0_scenario() {
    // Seed at t=0 with rx=1000, tx=500; at t=1s rx=2024, tx=1012:
    // (2024-1000)/1024/1.0 = 1.0 KiB/s, EMA from zero = 0.35;
    // (1012-500)/1024/1.0 = 0.5 KiB/s, EMA from zero = 0.175.
    let mut st = EstimatorState::new();
    let name = b"eth0".to_vec();
    let s1 = CounterSnapshot { rx_bytes: 1000, tx_bytes: 500, up: true, t_ms: 0 };
    let s2 = CounterSnapshot { rx_bytes: 2024, tx_bytes: 1012, up: true, t_ms: 1000 };
    assert!(st.update(&name, s1, ALPHA_MILLI).is_none());
    let sample = st.update(&name, s2, ALPHA_MILLI).expect("second reading emits");
    assert_eq!(sample.iface, b"eth0".to_vec());
    assert_eq!(sample.rx_kib_s_micro, 350_000);
    assert_eq!(sample.tx_kib_s_micro, 175_000);
    assert!(sample.up);
    assert!((sample.rx_kib_s_micro as f64 / 1e6 - 0.35).abs() < 1e-12);
    assert!((sample.tx_kib_s_micro as f64 / 1e6 - 0.175).abs() < 1e-12);
}

#[test]
fn counter_reset_gives_zero_rate() {
    let mut st = EstimatorState::new();
    let name = b"eth0".to_vec();
    let s1 = CounterSnapshot { rx_bytes: 5000, tx_bytes: 5000, up: true, t_ms: 0 };
    let s2 = CounterSnapshot { rx_bytes: 100, tx_bytes: 100, up: true, t_ms: 1000 };
    assert!(st.update(&name, s1, ALPHA_MILLI).is_none());
    let sample = st.update(&name, s2, ALPHA_MILLI).unwrap();
    assert_eq!(sample.rx_kib_s_micro, 0);
    assert_eq!(sample.tx_kib_s_micro, 0);
}

#[test]
fn parse_counter_text() {
    assert_eq!(parse_u64_bytes(b"123\n"), Some(123));
    assert_eq!(parse_u64_bytes(b" 42 "), Some(42));
    assert_eq!(parse_u64_bytes(b"0"), Some(0));
    assert_eq!(parse_u64_bytes(b"18446744073709551615\n"), Some(u64::MAX));
    assert_eq!(parse_u64_bytes(b"18446744073709551616"), None);
    assert_eq!(parse_u64_bytes(b"99999999999999999999999"), None);
    assert_eq!(parse_u64_bytes(b"12a3"), None);
    assert_eq!(parse_u64_bytes(b""), None);
    assert_eq!(parse_u64_bytes(b"  \n"), None);
    assert_eq!(parse_u64_bytes(b"-5"), None);
}

#[test]
fn trim_both_ends() {
    assert_eq!(trim_copy(b"  up\n"), b"up".to_vec());
    assert_eq!(trim_copy(b"\t1\r\n"), b"1".to_vec());
    assert_eq!(trim_copy(b""), Vec::<u8>::new());
    assert_eq!(trim_copy(b" \t "), Vec::<u8>::new());
    assert_eq!(trim_copy(b"eth0"), b"eth0".to_vec());
}

#[test]
fn counters_from_raw_texts() {
    assert_eq!(
        parse_counters(b"2024\n", b"1012\n", b"up\n", b"0\n"),
        Some((2024, 1012, true))
    );
    assert_eq!(
        parse_counters(b"7\n", b"9\n", b"unknown\n", b"1\n"),
        Some((7, 9, true))
    );
    assert_eq!(
        parse_counters(b"7\n", b"9\n", b"unknown\n", b"0\n"),
        Some((7, 9, false))
    );
    assert_eq!(
        parse_counters(b"7\n", b"9\n", b"down\n", b"1\n"),
        Some((7, 9, false))
    );
    assert_eq!(parse_counters(b"\n", b"9\n", b"up\n", b"1\n"), None);
    assert_eq!(parse_counters(b"7\n", b"x\n", b"up\n", b"1\n"), None);
}

#[test]
fn route_default_found() {
    let content = b"Iface\tDestination\tGateway\tFlags\n\
eth0\t00000000\t0102A8C0\t0003\n\
eth0\t0000A8C0\t00000000\t0001\n";
    assert_eq!(default_route_iface(content), Some(b"eth0".to_vec()));
}

#[test]
fn route_default_on_later_line() {
    let content = b"Iface\tDestination\tGateway\n\
wlan0\t0000A8C0\t00000000\n\
wlan0\t00000000\t0102A8C0\n";
    assert_eq!(default_route_iface(content), Some(b"wlan0".to_vec()));
}

#[test]
fn route_no_default() {
    let content = b"Iface\tDestination\tGateway\n\
eth0\t0000A8C0\t00000000\n";
    assert_eq!(default_route_iface(content), None);
}

#[test]
fn route_header_not_consulted() {
    // A default-looking entry in the header line does not count.
    let content = b"lo\t00000000\tGateway\n";
    assert_eq!(default_route_iface(content), None);
}

#[test]
fn route_short_lines_ignored() {
    let content = b"Iface\tDestination\n\
eth0\t00000000\n\
wlan0\t00000000\t0102A8C0\n";
    assert_eq!(default_route_iface(content), Some(b"wlan0".to_vec()));
}

#[test]
fn route_empty_and_headerless() {
    assert_eq!(default_route_iface(b""), None);
    assert_eq!(default_route_iface(b"no newline at all"), None);
}
