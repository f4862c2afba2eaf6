//! Scenarios over the alert evaluator: firing and relief edges, resolution
//! selection, idempotence, error cases, and the list operations.

use simon_core::alerts::{
    check_alert_condition, delete_alert, delete_notification_method, evaluator_tick, upsert_alert,
    upsert_notification_method, update_alert_state, AlertError,
};
use simon_core::model::{
    Alert, AlertVar, DisksInfo, MemoryInfo, NetworkInfo, NetworkInterface, NotificationConfig,
    NotificationMethod, Sample, WebHookNotif,
};
use simon_core::store::{GeneralRow, Store};

fn general_row(t: i64, cpu_centi: u64) -> GeneralRow {
    GeneralRow {
        timestamp: t,
        cpu_usage: cpu_centi,
        mem_usage: 0,
        swap_usage: 0,
        load_avg_1: 0,
        load_avg_5: 0,
        load_avg_15: 0,
    }
}

fn cpu_alert(threshold_centi: i64, window_min: i64) -> Alert {
    Alert {
        id: "a1".to_string(),
        var: AlertVar {
            cat: "sys".to_string(),
            var: "cpu_usage".to_string(),
            resrc: "sys".to_string(),
        },
        threshold: threshold_centi,
        operator: ">".to_string(),
        time_window: window_min,
        enabled: true,
        firing: false,
        notif_methods: vec!["m1".to_string()],
    }
}

fn webhook_method(id: &str, enabled: bool) -> NotificationMethod {
    NotificationMethod {
        id: id.to_string(),
        name: "hook".to_string(),
        kind: "webhook".to_string(),
        enabled,
        config: NotificationConfig::WebHook(WebHookNotif {
            url: "http://localhost/notify?m={notif_msg}".to_string(),
            method: "POST".to_string(),
            headers: vec![],
            body: "{notif_msg}".to_string(),
        }),
    }
}

#[test]
fn alert_fire_and_relief() {
    let mut store = Store::new();
    let now: i64 = 10000;
    // five minutes of minute rows, all above 80%
    for k in 0..5 {
        store.general_m.push(general_row(now - 60 * k, 8500));
    }
    let methods = vec![webhook_method("m1", true)];
    let alerts = vec![cpu_alert(8000, 5)];

    let (alerts, dispatches) = evaluator_tick(&store, alerts, &methods, now);
    assert!(alerts[0].firing);
    assert_eq!(dispatches.len(), 1);
    assert_eq!(dispatches[0].method_id, "m1");
    assert_eq!(
        dispatches[0].message,
        "ALERT: CPU Usage exceeded 80% (sustained for 5 min)"
    );

    // the window drops below the threshold: relief edge
    let mut store = Store::new();
    for k in 0..5 {
        store.general_m.push(general_row(now - 60 * k, 7000));
    }
    let (alerts, dispatches) = evaluator_tick(&store, alerts, &methods, now);
    assert!(!alerts[0].firing);
    assert_eq!(dispatches.len(), 1);
    assert_eq!(
        dispatches[0].message,
        "RESOLVED: CPU Usage no longer exceeded 80% (back to normal)"
    );
}

#[test]
fn one_violating_sample_keeps_quiescent() {
    let mut store = Store::new();
    let now: i64 = 10000;
    store.general_m.push(general_row(now - 120, 8500));
    store.general_m.push(general_row(now - 60, 7900));
    let alerts = vec![cpu_alert(8000, 5)];
    let methods = vec![webhook_method("m1", true)];
    let (alerts, dispatches) = evaluator_tick(&store, alerts, &methods, now);
    assert!(!alerts[0].firing);
    assert_eq!(dispatches.len(), 0);
}

#[test]
fn evaluator_is_idempotent() {
    let mut store = Store::new();
    let now: i64 = 10000;
    for k in 0..5 {
        store.general_m.push(general_row(now - 60 * k, 8500));
    }
    let methods = vec![webhook_method("m1", true)];
    let alerts = vec![cpu_alert(8000, 5)];
    let (alerts, first) = evaluator_tick(&store, alerts, &methods, now);
    assert_eq!(first.len(), 1);
    let (alerts, second) = evaluator_tick(&store, alerts, &methods, now);
    assert_eq!(second.len(), 0);
    assert!(alerts[0].firing);
}

#[test]
fn disabled_method_gets_nothing() {
    let mut store = Store::new();
    let now: i64 = 10000;
    store.general_m.push(general_row(now - 60, 8500));
    let methods = vec![webhook_method("m1", false)];
    let alerts = vec![cpu_alert(8000, 5)];
    let (alerts, dispatches) = evaluator_tick(&store, alerts, &methods, now);
    assert!(alerts[0].firing);
    assert_eq!(dispatches.len(), 0);
}

#[test]
fn disabled_alert_is_skipped() {
    let mut store = Store::new();
    let now: i64 = 10000;
    store.general_m.push(general_row(now - 60, 8500));
    let methods = vec![webhook_method("m1", true)];
    let mut alert = cpu_alert(8000, 5);
    alert.enabled = false;
    let (alerts, dispatches) = evaluator_tick(&store, vec![alert], &methods, now);
    assert!(!alerts[0].firing);
    assert_eq!(dispatches.len(), 0);
}

#[test]
fn empty_window_means_quiescent() {
    let store = Store::new();
    let alert = cpu_alert(8000, 5);
    assert_eq!(check_alert_condition(&store, &alert, 10000), Ok(false));
}

#[test]
fn resolution_selection() {
    let now: i64 = 1000000;
    let mut store = Store::new();
    store.general_m.push(general_row(now - 60, 9000));
    // a 120-minute window reads minute rows
    let mut alert = cpu_alert(8000, 120);
    assert_eq!(check_alert_condition(&store, &alert, now), Ok(true));
    // a 121-minute window reads hour rows, which are empty here
    alert.time_window = 121;
    assert_eq!(check_alert_condition(&store, &alert, now), Ok(false));
    // with an hour row present, the long window sees it
    store.general_h.push(general_row(now - 60, 9000));
    assert_eq!(check_alert_condition(&store, &alert, now), Ok(true));
}

#[test]
fn below_operator_uses_window_max() {
    let now: i64 = 10000;
    let mut store = Store::new();
    store.general_m.push(general_row(now - 120, 1000));
    store.general_m.push(general_row(now - 60, 3000));
    let mut alert = cpu_alert(2000, 5);
    alert.operator = "<".to_string();
    // MAX is 30.00, not below 20.00
    assert_eq!(check_alert_condition(&store, &alert, now), Ok(false));
    alert.threshold = 3500;
    assert_eq!(check_alert_condition(&store, &alert, now), Ok(true));
}

#[test]
fn unknown_operator_is_rejected() {
    let store = Store::new();
    let mut alert = cpu_alert(8000, 5);
    alert.operator = ">=".to_string();
    assert_eq!(
        check_alert_condition(&store, &alert, 10000),
        Err(AlertError::UnknownOperator)
    );
}

#[test]
fn unknown_category_is_rejected() {
    let store = Store::new();
    let mut alert = cpu_alert(8000, 5);
    alert.var.cat = "gpu".to_string();
    assert_eq!(
        check_alert_condition(&store, &alert, 10000),
        Err(AlertError::UnknownCategory)
    );
}

#[test]
fn unknown_variable_is_rejected() {
    let store = Store::new();
    let mut alert = cpu_alert(8000, 5);
    alert.var.var = "gpu_usage".to_string();
    assert_eq!(
        check_alert_condition(&store, &alert, 10000),
        Err(AlertError::UnknownVariable)
    );
}

#[test]
fn net_alert_filters_by_resource() {
    let now: i64 = 10000;
    let mut store = Store::new();
    let mut sampler = simon_core::sampler::Sampler::new();
    let mk = |rx: u64| Sample {
        cpu_usage: 0,
        load_avg_1: 0,
        load_avg_5: 0,
        load_avg_15: 0,
        mem: MemoryInfo { total_mem: 1, used_mem: 0, total_swap: 0, used_swap: 0 },
        net: NetworkInfo {
            interfaces: vec![
                NetworkInterface { name: "eth0".to_string(), rx, tx: 0 },
                NetworkInterface { name: "lo".to_string(), rx: 0, tx: 0 },
            ],
        },
        disk: DisksInfo { disks: vec![] },
    };
    sampler.tick(&mut store, now - 4, mk(0), 2);
    sampler.tick(&mut store, now - 2, mk(4000), 2);
    store.roll_up(
        simon_core::store::Resolution::Second,
        simon_core::store::Resolution::Minute,
        now - 60,
        now,
    );
    let mut alert = Alert {
        id: "a2".to_string(),
        var: AlertVar {
            cat: "net".to_string(),
            var: "rx_rate".to_string(),
            resrc: "eth0".to_string(),
        },
        threshold: 500,
        operator: ">".to_string(),
        time_window: 5,
        enabled: true,
        firing: false,
        notif_methods: vec![],
    };
    assert_eq!(check_alert_condition(&store, &alert, now), Ok(true));
    alert.var.resrc = "lo".to_string();
    assert_eq!(check_alert_condition(&store, &alert, now), Ok(false));
}

#[test]
fn upsert_assigns_fresh_id() {
    let mut alert = cpu_alert(8000, 5);
    alert.id = "-1".to_string();
    alert.firing = true;
    let alerts = upsert_alert(vec![], alert);
    assert_eq!(alerts.len(), 1);
    assert_ne!(alerts[0].id, "-1");
    assert_eq!(alerts[0].id.len(), 36);
    // storing always resets the firing state
    assert!(!alerts[0].firing);
}

#[test]
fn upsert_replaces_by_id() {
    let first = cpu_alert(8000, 5);
    let mut second = cpu_alert(9000, 10);
    second.id = "a1".to_string();
    let alerts = upsert_alert(vec![first], second);
    assert_eq!(alerts.len(), 1);
    assert_eq!(alerts[0].threshold, 9000);
    assert_eq!(alerts[0].time_window, 10);
}

#[test]
fn delete_alert_by_id() {
    let alerts = upsert_alert(vec![], cpu_alert(8000, 5));
    let alerts = delete_alert(alerts, &"a1".to_string());
    assert_eq!(alerts.len(), 0);
}

#[test]
fn method_upsert_and_delete() {
    let mut m = webhook_method("-1", true);
    m.id = "-1".to_string();
    let methods = upsert_notification_method(vec![], m);
    assert_eq!(methods.len(), 1);
    assert_eq!(methods[0].id.len(), 36);
    let id = methods[0].id.clone();
    let mut replacement = webhook_method("x", false);
    replacement.id = id.clone();
    let methods = upsert_notification_method(methods, replacement);
    assert_eq!(methods.len(), 1);
    assert!(!methods[0].enabled);
    let methods = delete_notification_method(methods, &id);
    assert_eq!(methods.len(), 0);
}

#[test]
fn update_firing_state_touches_first_match() {
    let a = cpu_alert(8000, 5);
    let alerts = update_alert_state(vec![a], &"a1".to_string(), true);
    assert!(alerts[0].firing);
    let alerts = update_alert_state(alerts, &"missing".to_string(), false);
    assert!(alerts[0].firing);
}
