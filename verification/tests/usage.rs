use wireport::clock::{local_day_key_back, local_time_now, month_start_key, today_key, utc_now_stamp};
use wireport::metrics::handshake_label;
use wireport::usage::{
    compute_usage_overview, compute_usage_overview_at, prune_days_before, prune_old_days,
    record_usage_delta, record_usage_delta_on, reset_usage_store, usage_snapshot_for_disk,
    UsageDay, UsageStore, UsageWindows,
};

fn days_ago(n: i64) -> String {
    (chrono::Local::now() - chrono::Duration::days(n))
        .format("%Y-%m-%d")
        .to_string()
}

#[test]
fn today_key_is_iso_date() {
    let key = today_key();
    assert_eq!(key.len(), 10);
    assert_eq!(key.chars().nth(4), Some('-'));
    assert_eq!(key.chars().nth(7), Some('-'));
}

#[test]
fn record_usage_delta_accumulates_into_today() {
    let mut store = UsageStore::default();
    let key = today_key();

    record_usage_delta(&mut store, 100, 200);
    record_usage_delta(&mut store, 50, 25);

    let day = store.day(&key).unwrap();
    assert_eq!(day.uploaded, 150);
    assert_eq!(day.downloaded, 225);
}

#[test]
fn record_usage_delta_ignores_zero() {
    let mut store = UsageStore::default();
    record_usage_delta(&mut store, 0, 0);
    assert!(
        store.is_empty(),
        "zero delta should not create a day entry"
    );
}

#[test]
fn compute_usage_overview_sums_windows() {
    let today = today_key();
    let yesterday = days_ago(1);
    let ten_days_ago = days_ago(10);

    let mut store = UsageStore::default();
    store.insert_day(
        today.clone(),
        UsageDay {
            uploaded: 1000,
            downloaded: 2000,
        },
    );
    store.insert_day(
        yesterday.clone(),
        UsageDay {
            uploaded: 500,
            downloaded: 800,
        },
    );
    store.insert_day(
        ten_days_ago,
        UsageDay {
            uploaded: 9999,
            downloaded: 9999,
        },
    );

    let ov = compute_usage_overview(&store);

    assert_eq!(ov.today.uploaded, 1000);
    assert_eq!(ov.today.downloaded, 2000);

    assert_eq!(ov.last_24h.uploaded, 1500);
    assert_eq!(ov.last_24h.downloaded, 2800);

    assert_eq!(ov.week.uploaded, 1500);
    assert_eq!(ov.week.downloaded, 2800);

    assert!(
        ov.month.uploaded >= ov.week.uploaded,
        "month should include at least the week's bytes"
    );
    assert!(
        ov.month.downloaded >= ov.week.downloaded,
        "month should include at least the week's bytes"
    );

    assert_eq!(ov.total.uploaded, 11499);
    assert_eq!(ov.total.downloaded, 12799);
}

#[test]
fn compute_usage_overview_empty_store_reports_zero() {
    let store = UsageStore::default();
    let ov = compute_usage_overview(&store);
    assert_eq!(ov.today.uploaded, 0);
    assert_eq!(ov.today.downloaded, 0);
    assert_eq!(ov.last_24h.uploaded, 0);
    assert_eq!(ov.week.uploaded, 0);
    assert_eq!(ov.month.uploaded, 0);
    assert_eq!(ov.total.uploaded, 0);
    assert_eq!(ov.total.downloaded, 0);
}

#[test]
fn prune_old_days_removes_entries_past_retention() {
    let mut store = UsageStore::default();
    let old = days_ago(120);
    let recent = days_ago(5);
    store.insert_day(
        old,
        UsageDay {
            uploaded: 1,
            downloaded: 1,
        },
    );
    store.insert_day(
        recent.clone(),
        UsageDay {
            uploaded: 2,
            downloaded: 2,
        },
    );

    prune_old_days(&mut store, 90);

    assert!(!store.contains_key(&days_ago(120)));
    assert!(store.contains_key(&recent));
}

fn sample_store() -> UsageStore {
    let mut store = UsageStore::new();
    store.insert_day("2026-05-28".to_string(), UsageDay { uploaded: 7, downloaded: 70 });
    store.insert_day("2026-06-21".to_string(), UsageDay { uploaded: 1000, downloaded: 2000 });
    store.insert_day("2026-06-20".to_string(), UsageDay { uploaded: 500, downloaded: 800 });
    store.insert_day("2026-06-14".to_string(), UsageDay { uploaded: 3, downloaded: 30 });
    store.insert_day("2026-06-01".to_string(), UsageDay { uploaded: 40, downloaded: 4 });
    store
}

#[test]
fn overview_at_fixed_dates_counts_each_window() {
    let store = sample_store();
    let w = UsageWindows {
        today: "2026-06-21".to_string(),
        yesterday: "2026-06-20".to_string(),
        week_start: "2026-06-15".to_string(),
        month_start: "2026-06-01".to_string(),
    };
    let ov = compute_usage_overview_at(&store, &w);
    assert_eq!((ov.today.uploaded, ov.today.downloaded), (1000, 2000));
    assert_eq!((ov.last_24h.uploaded, ov.last_24h.downloaded), (1500, 2800));
    assert_eq!((ov.week.uploaded, ov.week.downloaded), (1500, 2800));
    assert_eq!((ov.month.uploaded, ov.month.downloaded), (1543, 2834));
    assert_eq!((ov.total.uploaded, ov.total.downloaded), (1550, 2904));
}

#[test]
fn overview_windows_nest() {
    let store = sample_store();
    let w = UsageWindows {
        today: "2026-06-21".to_string(),
        yesterday: "2026-06-20".to_string(),
        week_start: "2026-06-15".to_string(),
        month_start: "2026-06-01".to_string(),
    };
    let ov = compute_usage_overview_at(&store, &w);
    assert!(ov.today.uploaded <= ov.last_24h.uploaded);
    assert!(ov.last_24h.uploaded <= ov.week.uploaded);
    assert!(ov.week.uploaded <= ov.month.uploaded);
    assert!(ov.month.uploaded <= ov.total.uploaded);
    assert!(ov.month.downloaded <= ov.total.downloaded);
}

#[test]
fn days_are_kept_in_key_order() {
    let store = sample_store();
    assert_eq!(store.len(), 5);
    let keys: Vec<String> = (0..store.len()).map(|i| store.entry_at(i).0).collect();
    assert_eq!(
        keys,
        vec!["2026-05-28", "2026-06-01", "2026-06-14", "2026-06-20", "2026-06-21"]
    );
}

#[test]
fn recording_on_a_day_adds_and_saturates() {
    let mut store = UsageStore::new();
    record_usage_delta_on(&mut store, "2026-06-21".to_string(), 10, 20);
    record_usage_delta_on(&mut store, "2026-06-21".to_string(), 5, 0);
    let d = store.day("2026-06-21").unwrap();
    assert_eq!((d.uploaded, d.downloaded), (15, 20));
    record_usage_delta_on(&mut store, "2026-06-21".to_string(), u64::MAX, 1);
    let d = store.day("2026-06-21").unwrap();
    assert_eq!((d.uploaded, d.downloaded), (u64::MAX, 21));
    record_usage_delta_on(&mut store, "2026-06-22".to_string(), 0, 0);
    assert!(!store.contains_key("2026-06-22"));
}

#[test]
fn pruning_keeps_the_cutoff_day_and_later() {
    let mut store = sample_store();
    prune_days_before(&mut store, "2026-06-14");
    assert!(!store.contains_key("2026-05-28"));
    assert!(!store.contains_key("2026-06-01"));
    assert!(store.contains_key("2026-06-14"));
    assert!(store.contains_key("2026-06-21"));
    assert_eq!(store.len(), 3);
}

#[test]
fn reset_clears_days_and_stamps_the_time() {
    let mut store = sample_store();
    reset_usage_store(&mut store);
    assert!(store.is_empty());
    let stamp = store.last_updated().unwrap();
    assert_eq!(stamp.len(), 20);
    assert!(stamp.ends_with('Z'));
}

#[test]
fn snapshot_for_disk_drops_old_days_and_stamps() {
    let mut store = UsageStore::new();
    store.insert_day(days_ago(120), UsageDay { uploaded: 1, downloaded: 1 });
    store.insert_day(days_ago(3), UsageDay { uploaded: 2, downloaded: 2 });
    let snap = usage_snapshot_for_disk(&store);
    assert_eq!(snap.len(), 1);
    assert!(snap.contains_key(&days_ago(3)));
    assert!(snap.last_updated().is_some());
    assert_eq!(store.len(), 2);
}

#[test]
fn rfc3339_texts_of_instants() {
    let stamp = utc_now_stamp();
    assert_eq!(stamp.len(), 20);
    assert_eq!(stamp.chars().nth(10), Some('T'));
    assert!(stamp.ends_with('Z'));
    assert_eq!(handshake_label(1, 500_000_000), "1970-01-01T00:00:01.500+00:00");
    assert_eq!(handshake_label(-86_400, 0), "1969-12-31T00:00:00+00:00");
}

fn chrono_local_key(secs: i64) -> String {
    chrono::DateTime::from_timestamp(secs, 0)
        .unwrap()
        .with_timezone(&chrono::Local)
        .format("%Y-%m-%d")
        .to_string()
}

#[test]
fn local_day_keys_match_chrono_local_dates() {
    let now = 1_700_000_000i64;
    assert_eq!(local_day_key_back(now, 0), chrono_local_key(now));
    assert_eq!(local_day_key_back(now, 1), chrono_local_key(now - 86_400));
    assert_eq!(local_day_key_back(now, 6), chrono_local_key(now - 6 * 86_400));
    assert_eq!(local_day_key_back(now, 90), chrono_local_key(now - 90 * 86_400));
}

#[test]
fn month_start_is_the_first_of_the_month() {
    assert_eq!(month_start_key(&"2026-06-21".to_string()), "2026-06-01");
    assert_eq!(month_start_key(&"+12026-12-31".to_string()), "+12026-12-01");
}

#[test]
fn local_time_has_the_log_shape() {
    let t = local_time_now();
    let expected_prefix = chrono::Local::now().format("%Y-%m-%d").to_string();
    assert_eq!(t.len(), 19);
    assert_eq!(t.chars().nth(10), Some(' '));
    assert_eq!(t.chars().nth(13), Some(':'));
    assert!(t.starts_with(&expected_prefix) || t < expected_prefix);
}
