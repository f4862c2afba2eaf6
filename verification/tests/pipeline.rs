//! End-to-end scenarios over the sampler, the store and the aggregation
//! engine.

use simon_core::model::{DiskInfo, DisksInfo, MemoryInfo, NetworkInfo, NetworkInterface, Sample};
use simon_core::sampler::Sampler;
use simon_core::store::{GeneralRow, Resolution, Store};

fn mem() -> MemoryInfo {
    MemoryInfo { total_mem: 1000, used_mem: 250, total_swap: 0, used_swap: 0 }
}

fn sample_with_net(cpu_centi: u64, rx: u64, tx: u64) -> Sample {
    Sample {
        cpu_usage: cpu_centi,
        load_avg_1: 100,
        load_avg_5: 100,
        load_avg_15: 100,
        mem: mem(),
        net: NetworkInfo {
            interfaces: vec![NetworkInterface { name: "eth0".to_string(), rx, tx }],
        },
        disk: DisksInfo { disks: vec![] },
    }
}

fn sample_with_disk(total_read: u64, total_write: u64) -> Sample {
    Sample {
        cpu_usage: 5000,
        load_avg_1: 100,
        load_avg_5: 100,
        load_avg_15: 100,
        mem: mem(),
        net: NetworkInfo { interfaces: vec![] },
        disk: DisksInfo {
            disks: vec![DiskInfo {
                fs: "ext4".to_string(),
                kind: "ssd".to_string(),
                total_space: 1000,
                free_space: 400,
                mount_point: "/".to_string(),
                removable: false,
                io: [0, 0, total_read, total_write],
            }],
        },
    }
}

#[test]
fn rate_computation() {
    let mut store = Store::new();
    let mut sampler = Sampler::new();
    sampler.tick(&mut store, 1000, sample_with_net(5000, 1000, 0), 2);
    sampler.tick(&mut store, 1002, sample_with_net(5000, 3000, 0), 2);
    assert_eq!(store.net_s.len(), 2);
    assert_eq!(store.net_s[0].rx_rate, 0);
    assert_eq!(store.net_s[1].timestamp, 1002);
    assert_eq!(store.net_s[1].rx, 3000);
    assert_eq!(store.net_s[1].rx_rate, 1000);
}

#[test]
fn counter_reset() {
    let mut store = Store::new();
    let mut sampler = Sampler::new();
    sampler.tick(&mut store, 1000, sample_with_net(5000, 5000, 0), 2);
    sampler.tick(&mut store, 1002, sample_with_net(5000, 100, 0), 2);
    assert_eq!(store.net_s[1].rx_rate, 0);
}

#[test]
fn disk_rates_and_usage() {
    let mut store = Store::new();
    let mut sampler = Sampler::new();
    sampler.tick(&mut store, 1000, sample_with_disk(1000, 2000), 2);
    sampler.tick(&mut store, 1002, sample_with_disk(5000, 2000), 2);
    assert_eq!(store.disk_s[1].read_rate, 2000);
    assert_eq!(store.disk_s[1].write_rate, 0);
    // 100 * (1 - 400/1000) = 60.00%
    assert_eq!(store.disk_s[1].disk_usage, 6000);
}

#[test]
fn memory_percentages() {
    let mut store = Store::new();
    let mut sampler = Sampler::new();
    sampler.tick(&mut store, 1000, sample_with_net(5000, 0, 0), 2);
    // 100 * 250/1000 = 25.00%; swap total 0 stays 0
    assert_eq!(store.general_s[0].mem_usage, 2500);
    assert_eq!(store.general_s[0].swap_usage, 0);
}

#[test]
fn minute_roll_up() {
    let mut store = Store::new();
    let mut t = 1940;
    while t < 2000 {
        store.insert_sample(t, &sample_with_net(5000, 0, 0), &None);
        t += 2;
    }
    store.roll_up(Resolution::Second, Resolution::Minute, 1940, 2000);
    assert_eq!(store.general_m.len(), 1);
    assert_eq!(store.general_m[0].timestamp, 2000);
    assert_eq!(store.general_m[0].cpu_usage, 5000);
    assert_eq!(store.net_m.len(), 1);
    assert_eq!(store.net_m[0].name, "eth0");
}

#[test]
fn boundary_tick_rolls_preceding_minute() {
    let mut store = Store::new();
    let mut sampler = Sampler::new();
    let mut t = 1922;
    while t <= 1978 {
        sampler.tick(&mut store, t, sample_with_net(4000, 0, 0), 2);
        t += 2;
    }
    // the tick at 1980 lands on a minute boundary and rolls up [1920, 1980]
    sampler.tick(&mut store, 1980, sample_with_net(4000, 0, 0), 2);
    assert_eq!(store.general_m.len(), 1);
    assert_eq!(store.general_m[0].timestamp, 1980);
    assert_eq!(store.general_m[0].cpu_usage, 4000);
}

#[test]
fn off_boundary_tick_does_not_roll() {
    let mut store = Store::new();
    let mut sampler = Sampler::new();
    sampler.tick(&mut store, 1910, sample_with_net(4000, 0, 0), 2);
    assert_eq!(store.general_m.len(), 0);
}

#[test]
fn rollup_empty_window_appends_nothing() {
    let mut store = Store::new();
    store.roll_up(Resolution::Second, Resolution::Minute, 0, 60);
    assert_eq!(store.general_m.len(), 0);
    assert_eq!(store.net_m.len(), 0);
    assert_eq!(store.disk_m.len(), 0);
}

#[test]
fn rollup_counters_take_max_and_rates_average() {
    let mut store = Store::new();
    let mut sampler = Sampler::new();
    sampler.tick(&mut store, 122, sample_with_net(1000, 1000, 0), 2);
    sampler.tick(&mut store, 124, sample_with_net(3000, 3000, 0), 2);
    sampler.tick(&mut store, 126, sample_with_net(2000, 7000, 0), 2);
    store.roll_up(Resolution::Second, Resolution::Minute, 120, 180);
    // cumulative rx: MAX(1000, 3000, 7000)
    assert_eq!(store.net_m[0].rx, 7000);
    // rates: 0, 1000, 2000 -> mean 1000
    assert_eq!(store.net_m[0].rx_rate, 1000);
    // cpu: mean of 10.00, 30.00, 20.00 = 20.00
    assert_eq!(store.general_m[0].cpu_usage, 2000);
}

#[test]
fn rounding_is_half_up() {
    let mut store = Store::new();
    store.general_s.push(GeneralRow {
        timestamp: 60,
        cpu_usage: 1,
        mem_usage: 0,
        swap_usage: 0,
        load_avg_1: 0,
        load_avg_5: 0,
        load_avg_15: 0,
    });
    store.general_s.push(GeneralRow {
        timestamp: 62,
        cpu_usage: 2,
        mem_usage: 1,
        swap_usage: 0,
        load_avg_1: 0,
        load_avg_5: 0,
        load_avg_15: 0,
    });
    store.roll_up(Resolution::Second, Resolution::Minute, 60, 120);
    // (1 + 2) / 2 = 1.5 rounds up to 2; (0 + 1) / 2 = 0.5 rounds up to 1
    assert_eq!(store.general_m[0].cpu_usage, 2);
    assert_eq!(store.general_m[0].mem_usage, 1);
}

#[test]
fn retention_sweep() {
    let mut store = Store::new();
    let mut sampler = Sampler::new();
    sampler.tick(&mut store, 0, sample_with_net(5000, 0, 0), 2);
    // seed old rows into the coarser tiers via direct roll-ups stamped 0
    store.roll_up(Resolution::Second, Resolution::Minute, 0, 0);
    store.roll_up(Resolution::Minute, Resolution::Hour, 0, 0);
    assert_eq!(store.general_s[0].timestamp, 0);
    assert_eq!(store.general_m[0].timestamp, 0);
    assert_eq!(store.general_h[0].timestamp, 0);
    // a fresh raw row inside the retention window of the day boundary
    sampler.tick(&mut store, 86398, sample_with_net(5000, 0, 0), 2);
    // the tick at the day boundary 86400 rolls up and prunes
    sampler.tick(&mut store, 86400, sample_with_net(5000, 0, 0), 2);
    // raw rows older than one hour are gone; the fresh ones stay
    assert!(store.general_s.iter().all(|r| r.timestamp >= 86400 - 3600));
    assert!(store.general_s.iter().any(|r| r.timestamp == 86398));
    // minute and hour cutoffs lie before zero at this boundary, so those survive
    assert!(store.general_m.iter().any(|r| r.timestamp == 0));
    assert!(store.general_h.iter().any(|r| r.timestamp == 0));
}

#[test]
fn retention_sweep_old_boundary() {
    let mut store = Store::new();
    let mut sampler = Sampler::new();
    sampler.tick(&mut store, 0, sample_with_net(5000, 0, 0), 2);
    store.roll_up(Resolution::Second, Resolution::Minute, 0, 0);
    store.roll_up(Resolution::Minute, Resolution::Hour, 0, 0);
    // a day boundary beyond every retention span sweeps all three tiers
    let b: i64 = 366 * 86400;
    store.aggregate_tick(b, 2);
    assert!(store.general_s.iter().all(|r| r.timestamp >= b - 3600));
    assert!(store.general_m.iter().all(|r| r.timestamp >= b - 4 * 86400));
    assert!(store.general_h.iter().all(|r| r.timestamp >= b - 365 * 86400));
    assert!(!store.general_s.iter().any(|r| r.timestamp == 0));
    assert!(!store.general_m.iter().any(|r| r.timestamp == 0));
    assert!(!store.general_h.iter().any(|r| r.timestamp == 0));
}

#[test]
fn kv_set_get_roundtrip() {
    let mut store = Store::new();
    assert!(store.get_kv_str("alerts").is_none());
    store.set_kv_str("alerts", "[]");
    assert_eq!(store.get_kv_str("alerts"), Some("[]".to_string()));
    store.set_kv_str("alerts", "[1]");
    assert_eq!(store.get_kv_str("alerts"), Some("[1]".to_string()));
    store.set_kv_str("jwt_secret", "SECRET-REDACTED");
    assert_eq!(store.get_kv_str("alerts"), Some("[1]".to_string()));
    assert_eq!(store.kv.len(), 2);
}

#[test]
fn hour_boundary_rolls_minutes_into_hours() {
    let mut store = Store::new();
    // minute rows across the hour preceding t = 7200
    for k in 0..60 {
        store.general_m.push(GeneralRow {
            timestamp: 3660 + 60 * k,
            cpu_usage: 3000,
            mem_usage: 1000,
            swap_usage: 0,
            load_avg_1: 0,
            load_avg_5: 0,
            load_avg_15: 0,
        });
    }
    store.aggregate_tick(7200, 2);
    assert_eq!(store.general_h.len(), 1);
    assert_eq!(store.general_h[0].timestamp, 7200);
    assert_eq!(store.general_h[0].cpu_usage, 3000);
    // not a day boundary: nothing reaches the day tier and nothing is pruned
    assert_eq!(store.general_d.len(), 0);
    assert_eq!(store.general_m.len(), 60);
}
