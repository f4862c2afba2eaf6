//! Message rendering, text utilities, the catalogue, and the query surface.

use simon_core::catalog::{get_var_friendly_name, var_is_rate};
use simon_core::model::{Alert, AlertVar, HistoricalQueryOptions};
use simon_core::render::{format_alert_message, format_bytes_per_sec};
use simon_core::store::{GeneralRow, NetRow, Store};
use simon_core::text::{centi_to_fixed2, centi_to_string, i64_to_string, replace_all, u64_to_string};

fn alert(cat: &str, var: &str, resrc: &str, op: &str, threshold: i64, window: i64) -> Alert {
    Alert {
        id: "a1".to_string(),
        var: AlertVar { cat: cat.to_string(), var: var.to_string(), resrc: resrc.to_string() },
        threshold,
        operator: op.to_string(),
        time_window: window,
        enabled: true,
        firing: false,
        notif_methods: vec![],
    }
}

#[test]
fn decimal_rendering() {
    assert_eq!(u64_to_string(0), "0");
    assert_eq!(u64_to_string(907), "907");
    assert_eq!(i64_to_string(-45), "-45");
    assert_eq!(centi_to_string(8000), "80");
    assert_eq!(centi_to_string(8050), "80.5");
    assert_eq!(centi_to_string(8025), "80.25");
    assert_eq!(centi_to_string(-150), "-1.5");
    assert_eq!(centi_to_fixed2(14648), "146.48");
    assert_eq!(centi_to_fixed2(100), "1.00");
}

#[test]
fn bytes_per_sec_units() {
    assert_eq!(format_bytes_per_sec(0), "0.00 B/s");
    assert_eq!(format_bytes_per_sec(-5), "0.00 B/s");
    assert_eq!(format_bytes_per_sec(512), "512.00 B/s");
    // 1500 / 1024 = 1.4648... rounds to 1.46
    assert_eq!(format_bytes_per_sec(1500), "1.46 KiB/s");
    assert_eq!(format_bytes_per_sec(1048576), "1.00 MiB/s");
    assert_eq!(format_bytes_per_sec(3 * 1073741824), "3.00 GiB/s");
    // beyond the GiB bucket the unit is clamped
    assert_eq!(format_bytes_per_sec(2048 * 1073741824), "2048.00 GiB/s");
}

#[test]
fn friendly_names() {
    let v = AlertVar {
        cat: "sys".to_string(),
        var: "cpu_usage".to_string(),
        resrc: "sys".to_string(),
    };
    assert_eq!(get_var_friendly_name(&v), "CPU Usage");
    let v = AlertVar {
        cat: "net".to_string(),
        var: "rx_rate".to_string(),
        resrc: "eth0".to_string(),
    };
    assert_eq!(get_var_friendly_name(&v), "Network Receive Rate");
    let v = AlertVar {
        cat: "misc".to_string(),
        var: "foo".to_string(),
        resrc: "x".to_string(),
    };
    assert_eq!(get_var_friendly_name(&v), "misc foo");
}

#[test]
fn var_scale_classification() {
    assert!(var_is_rate(&"rx_rate".to_string()));
    assert!(var_is_rate(&"write_rate".to_string()));
    assert!(!var_is_rate(&"cpu_usage".to_string()));
    assert!(!var_is_rate(&"load_avg_1".to_string()));
}

#[test]
fn message_fire_and_relief_forms() {
    let a = alert("sys", "cpu_usage", "sys", ">", 8000, 5);
    assert_eq!(
        format_alert_message(&a, true),
        "ALERT: CPU Usage exceeded 80% (sustained for 5 min)"
    );
    assert_eq!(
        format_alert_message(&a, false),
        "RESOLVED: CPU Usage no longer exceeded 80% (back to normal)"
    );
}

#[test]
fn message_resource_tag_and_units() {
    let a = alert("net", "rx_rate", "eth0", ">", 1500, 10);
    assert_eq!(
        format_alert_message(&a, true),
        "ALERT: Network Receive Rate (eth0) exceeded 1.46 KiB/s (sustained for 10 min)"
    );
    let a = alert("disk", "disk_usage", "/", "<", 2550, 30);
    assert_eq!(
        format_alert_message(&a, true),
        "ALERT: Disk Usage (/) dropped below 25.5% (sustained for 30 min)"
    );
    let a = alert("sys", "load_avg_1", "sys", ">", 150, 5);
    assert_eq!(
        format_alert_message(&a, true),
        "ALERT: 1 Min Load Average exceeded 1.5 (sustained for 5 min)"
    );
}

#[test]
fn placeholder_substitution() {
    assert_eq!(
        replace_all("http://h/?m={notif_msg}", "{notif_msg}", "CPU high"),
        "http://h/?m=CPU high"
    );
    assert_eq!(replace_all("{notif_msg}{notif_msg}", "{notif_msg}", "x"), "xx");
    assert_eq!(replace_all("no placeholder", "{notif_msg}", "x"), "no placeholder");
    assert_eq!(replace_all("aaaa", "aa", "b"), "bb");
}

fn general_row(t: i64, cpu_centi: u64) -> GeneralRow {
    GeneralRow {
        timestamp: t,
        cpu_usage: cpu_centi,
        mem_usage: 100,
        swap_usage: 0,
        load_avg_1: 0,
        load_avg_5: 0,
        load_avg_15: 0,
    }
}

fn net_row(t: i64, name: &str, rx: u64, rx_rate: u64) -> NetRow {
    NetRow { timestamp: t, name: name.to_string(), rx, tx: 0, rx_rate, tx_rate: 0 }
}

#[test]
fn query_series_shape() {
    let mut store = Store::new();
    store.general_m.push(general_row(60, 5000));
    store.general_m.push(general_row(120, 7000));
    store.net_m.push(net_row(60, "eth0", 10, 5));
    store.net_m.push(net_row(120, "eth0", 20, 7));
    let opts = HistoricalQueryOptions {
        start_time: None,
        end_time: None,
        limit: None,
        resolution: "minute".to_string(),
    };
    let series = store.query_historical_data(&opts);
    // six general series plus two net rate series
    assert_eq!(series.len(), 8);
    assert_eq!(series[0].cat, "general");
    assert_eq!(series[0].stype, "cpu_usage");
    assert_eq!(series[0].name, "system");
    assert_eq!(series[0].timestamps, vec![60, 120]);
    assert_eq!(series[0].values, vec![5000, 7000]);
    let rx = series
        .iter()
        .find(|s| s.cat == "net" && s.stype == "rx_rate")
        .expect("rx_rate series");
    assert_eq!(rx.name, "eth0");
    assert_eq!(rx.values, vec![5, 7]);
    // raw cumulative counters are not returned
    assert!(series.iter().all(|s| s.stype != "rx" && s.stype != "tx"));
}

#[test]
fn query_bounds_and_limit() {
    let mut store = Store::new();
    for k in 0..10 {
        store.general_m.push(general_row(60 * (k + 1), 1000 + k as u64));
    }
    let opts = HistoricalQueryOptions {
        start_time: Some(120),
        end_time: Some(540),
        limit: Some(3),
        resolution: "minute".to_string(),
    };
    let series = store.query_historical_data(&opts);
    assert_eq!(series[0].timestamps, vec![120, 180, 240]);
    // an unknown resolution falls back to minute data
    let opts = HistoricalQueryOptions {
        start_time: None,
        end_time: None,
        limit: Some(-1),
        resolution: "fortnight".to_string(),
    };
    let series = store.query_historical_data(&opts);
    assert_eq!(series[0].timestamps.len(), 10);
}

#[test]
fn query_empty_store_returns_nothing() {
    let store = Store::new();
    let opts = HistoricalQueryOptions {
        start_time: None,
        end_time: None,
        limit: None,
        resolution: "second".to_string(),
    };
    assert_eq!(store.query_historical_data(&opts).len(), 0);
}

#[test]
fn resource_list_crosses_names_and_columns() {
    let mut store = Store::new();
    store.net_s.push(net_row(2, "eth0", 0, 0));
    store.net_s.push(net_row(4, "eth0", 0, 0));
    store.net_s.push(net_row(4, "wlan0", 0, 0));
    let vars = store.get_resource_list();
    // 2 interfaces x 2 net columns + 6 sys columns
    assert_eq!(vars.len(), 10);
    assert_eq!(vars[0].cat, "net");
    assert_eq!(vars[0].var, "rx_rate");
    assert_eq!(vars[0].resrc, "eth0");
    assert_eq!(vars[2].resrc, "wlan0");
    let sys: Vec<_> = vars.iter().filter(|v| v.cat == "sys").collect();
    assert_eq!(sys.len(), 6);
    assert!(sys.iter().all(|v| v.resrc == "sys"));
}
