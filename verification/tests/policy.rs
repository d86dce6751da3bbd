use netrate::driver::DriverState;
use netrate::select::{iface_is_up, pick_iface, up_ifaces, IfaceInfo, Pattern};

fn info(name: &str, operstate: &str, carrier: &str) -> IfaceInfo {
    IfaceInfo {
        name: name.as_bytes().to_vec(),
        operstate: operstate.as_bytes().to_vec(),
        carrier: carrier.as_bytes().to_vec(),
    }
}

fn route_with_default(iface: &str) -> Vec<u8> {
    let mut content = b"Iface\tDestination\tGateway\n".to_vec();
    content.extend_from_slice(iface.as_bytes());
    content.extend_from_slice(b"\t00000000\t0102A8C0\n");
    content
}

const NO_DEFAULT: &[u8] = b"Iface\tDestination\tGateway\n";

#[test]
fn up_determination() {
    assert!(iface_is_up(b"up\n", b"0\n"));
    assert!(iface_is_up(b"unknown\n", b"1\n"));
    assert!(!iface_is_up(b"unknown\n", b"0\n"));
    assert!(!iface_is_up(b"down\n", b"1\n"));
    assert!(!iface_is_up(b"", b""));
}

#[test]
fn up_list_keeps_order_and_drops_loopback_and_down() {
    let infos = vec![
        info("lo", "unknown", "1"),
        info("eth0", "up", "1"),
        info("wlan0", "down", "0"),
        info("tun0", "unknown", "1"),
    ];
    let ups = up_ifaces(&infos);
    assert_eq!(ups, vec![b"eth0".to_vec(), b"tun0".to_vec()]);
}

#[test]
fn pattern_picks_first_matching_up_interface() {
    let pat = Pattern::compile(b"^wl").expect("valid pattern");
    let infos = vec![info("eth0", "up", "1"), info("wlan0", "up", "1")];
    let got = pick_iface(Some(&pat), &infos, NO_DEFAULT);
    assert_eq!(got, Some(b"wlan0".to_vec()));
}

#[test]
fn pattern_matching_nothing_falls_back_to_default_route() {
    let pat = Pattern::compile(b"zzz").expect("valid pattern");
    let infos = vec![info("eth0", "up", "1")];
    let route = route_with_default("wlan0");
    let got = pick_iface(Some(&pat), &infos, route.as_slice());
    assert_eq!(got, Some(b"wlan0".to_vec()));
}

#[test]
fn pattern_and_route_failing_fall_back_to_first_up() {
    let pat = Pattern::compile(b"zzz").expect("valid pattern");
    let infos = vec![info("eth0", "up", "1"), info("tun0", "up", "1")];
    let got = pick_iface(Some(&pat), &infos, NO_DEFAULT);
    assert_eq!(got, Some(b"eth0".to_vec()));
}

#[test]
fn no_pattern_prefers_default_route() {
    let infos = vec![info("eth0", "up", "1")];
    let route = route_with_default("wlan0");
    let got = pick_iface(None, &infos, route.as_slice());
    assert_eq!(got, Some(b"wlan0".to_vec()));
}

#[test]
fn nothing_at_all_selects_none() {
    let infos = vec![info("wlan0", "down", "0")];
    assert_eq!(pick_iface(None, &infos, NO_DEFAULT), None);
}

#[test]
fn invalid_pattern_is_rejected_at_compile() {
    assert!(Pattern::compile(b"(").is_none());
    assert!(Pattern::compile(b"eth.*").is_some());
}

#[test]
fn loopback_never_selected() {
    let infos = vec![info("lo", "up", "1")];
    assert_eq!(pick_iface(None, &infos, NO_DEFAULT), None);
    let infos2 = vec![info("lo", "unknown", "1"), info("eth0", "up", "1")];
    assert_eq!(pick_iface(None, &infos2, NO_DEFAULT), Some(b"eth0".to_vec()));
}

#[test]
fn loopback_default_route_not_selected() {
    // Even a routing table naming the loopback interface as the default
    // route cannot make it the selection: the policy falls through.
    let route = route_with_default("lo");
    let infos = vec![info("eth0", "up", "1")];
    assert_eq!(pick_iface(None, &infos, route.as_slice()), Some(b"eth0".to_vec()));
    let none: Vec<IfaceInfo> = Vec::new();
    assert_eq!(pick_iface(None, &none, route.as_slice()), None);
}

#[test]
fn selection_timer() {
    let infos = vec![info("eth0", "up", "1")];
    let st = DriverState::init(0, None, &infos, NO_DEFAULT);
    assert!(!st.selection_due(14_999));
    assert!(st.selection_due(15_000));
    assert!(st.selection_due(100_000));
}

#[test]
fn driver_seed_then_emit_then_vanish() {
    let infos = vec![info("eth0", "up", "1")];
    let mut st = DriverState::init(0, None, &infos, NO_DEFAULT);
    assert_eq!(st.current_iface(), Some(&b"eth0".to_vec()));
    assert!(st.on_reading(0, Some((1000, 500, true))).is_none());
    let sample = st.on_reading(1000, Some((2024, 1012, true))).unwrap();
    assert_eq!(sample.iface, b"eth0".to_vec());
    assert_eq!(sample.rx_kib_s_micro, 350_000);
    assert_eq!(sample.tx_kib_s_micro, 175_000);
    // The interface vanishes: the watch is dropped.
    assert!(st.on_reading(2000, None).is_none());
    assert!(st.current_iface().is_none());
}

#[test]
fn interface_change_resets_smoothing() {
    let infos = vec![info("eth0", "up", "1")];
    let mut st = DriverState::init(0, None, &infos, NO_DEFAULT);
    // Build up a large average on eth0.
    assert!(st.on_reading(0, Some((0, 0, true))).is_none());
    let busy = st.on_reading(1000, Some((10_240_000, 10_240_000, true))).unwrap();
    assert!(busy.rx_kib_s_micro > 1_000_000);
    // Re-selection finds a different interface: smoothing starts over.
    let infos2 = vec![info("wlan0", "up", "1")];
    st.reselect(15_000, None, &infos2, NO_DEFAULT);
    assert_eq!(st.current_iface(), Some(&b"wlan0".to_vec()));
    assert!(st.on_reading(15_000, Some((50_000, 50_000, true))).is_none());
    let fresh = st.on_reading(16_000, Some((51_024, 50_512, true))).unwrap();
    // Only the post-change deltas enter: 1024 B/s and 512 B/s from a zero
    // baseline, exactly as for a brand-new interface.
    assert_eq!(fresh.iface, b"wlan0".to_vec());
    assert_eq!(fresh.rx_kib_s_micro, 350_000);
    assert_eq!(fresh.tx_kib_s_micro, 175_000);
}

#[test]
fn unchanged_reselection_keeps_smoothing() {
    let infos = vec![info("eth0", "up", "1")];
    let mut st = DriverState::init(0, None, &infos, NO_DEFAULT);
    assert!(st.on_reading(0, Some((0, 0, true))).is_none());
    st.reselect(15_000, None, &infos, NO_DEFAULT);
    // Same interface selected again: the seed survives, so this reading emits.
    assert!(st.on_reading(15_000, Some((1024, 512, true))).is_some());
}

#[test]
fn no_interface_tick_tries_selection_at_once() {
    let empty: Vec<IfaceInfo> = Vec::new();
    let mut st = DriverState::init(0, None, &empty, NO_DEFAULT);
    assert!(st.current_iface().is_none());
    let infos = vec![info("eth0", "up", "1")];
    st.on_no_interface(None, &infos, NO_DEFAULT);
    assert_eq!(st.current_iface(), Some(&b"eth0".to_vec()));
}
