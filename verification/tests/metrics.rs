use wireport::metrics::{
    handshake_age, handshake_label, idle_stats, parse_metrics, usage_deltas, StatsBaseline,
};

#[test]
fn reads_counters_and_handshake() {
    let body = "public_key=abc\ntx_bytes=1234\nrx_bytes = 5678\nlast_handshake_time_sec=1700000000\nlast_handshake_time_nsec=250\n";
    let m = parse_metrics(body);
    assert_eq!(m.tx_bytes, 1234);
    assert_eq!(m.rx_bytes, 5678);
    assert_eq!(m.last_handshake_sec, 1_700_000_000);
    assert_eq!(m.last_handshake_nsec, 250);
}

#[test]
fn unparsable_values_count_as_zero_and_last_line_wins() {
    let m = parse_metrics("tx_bytes=12\ntx_bytes=oops\nrx_bytes=7\r\nno equals sign\nrx_bytes=+9");
    assert_eq!(m.tx_bytes, 0);
    assert_eq!(m.rx_bytes, 9);
    let m = parse_metrics("last_handshake_time_sec=-5\nlast_handshake_time_nsec=99999999999");
    assert_eq!(m.last_handshake_sec, -5);
    assert_eq!(m.last_handshake_nsec, 0);
    let empty = parse_metrics("");
    assert_eq!((empty.tx_bytes, empty.rx_bytes), (0, 0));
}

#[test]
fn deltas_never_go_negative() {
    let prev = StatsBaseline { last_tx_bytes: 100, last_rx_bytes: 200 };
    assert_eq!(usage_deltas(prev, 150, 260), (50, 60));
    assert_eq!(usage_deltas(prev, 10, 200), (0, 0));
}

#[test]
fn idle_statistics() {
    let s = idle_stats("stopped");
    assert_eq!(s.status, "stopped");
    assert_eq!(s.uploaded_bytes_total, 0);
    assert_eq!(s.last_handshake, "Never");
    assert_eq!(s.last_handshake_age_secs, None);
}

#[test]
fn handshake_texts_and_ages() {
    assert_eq!(handshake_label(0, 0), "Never");
    assert_eq!(handshake_label(1_700_000_000, 0), "2023-11-14T22:13:20+00:00");
    assert_eq!(handshake_age(0, 1_700_000_000), None);
    assert_eq!(handshake_age(1_700_000_000, 1_700_000_030), Some(30));
    assert_eq!(handshake_age(1_700_000_100, 1_700_000_030), Some(0));
}
