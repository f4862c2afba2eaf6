//! The guarantees the core gives across its operations, stated and proved
//! once for all inputs: roll-up rows stay within the bounds of their
//! window, window-consistent alert evaluation, retention cutoffs, rate
//! derivation, and evaluator idempotence.

use vstd::prelude::*;

use crate::aggregate::{
    lemma_filter_sorted, spec_aggregate_tick, RETAIN_HOURS, RETAIN_MINUTES, RETAIN_SECONDS,
};
use crate::alerts::{
    lemma_min_properties, min_u64, spec_alert_values, spec_check_alert, spec_evaluator_tick,
    spec_tick_alert,
};
use crate::model::{AlertView, NotificationMethodV};
use crate::num::{lemma_round_div_between, round_div};
use crate::rollup::{
    d_agg_row, d_group, d_names, d_window, g_agg_row, g_window, lemma_max_properties,
    lemma_sum_bounds, max_u64, n_agg_row, n_group, n_names, n_window, sum_u64,
};
use crate::query::{
    d_bounds, g_bounds, n_bounds, spec_d_kept, spec_d_series_list, spec_d_series_one, spec_g_kept,
    spec_g_series, spec_in_bounds, spec_n_kept, spec_n_series_list, spec_n_series_one,
    spec_query_series, spec_resolution_of,
};
use crate::sampler::spec_rate;
use crate::store::{DiskRowV, GeneralRow, NetRowV, StoreModel};

verus! {

broadcast use vstd::seq_lib::group_filter_ensures;

/// The rounded mean of a nonempty sequence lies between its minimum and its
/// maximum.
proof fn lemma_mean_between(vals: Seq<u64>)
    requires
        vals.len() > 0,
    ensures
        min_u64(vals) <= round_div(sum_u64(vals), vals.len() as int) <= max_u64(vals),
{
    lemma_min_properties(vals);
    lemma_max_properties(vals);
    lemma_sum_bounds(vals, min_u64(vals), max_u64(vals));
    lemma_round_div_between(sum_u64(vals), vals.len() as int, min_u64(vals) as int, max_u64(vals) as int);
}

/// A minute roll-up row over a nonempty window of `general` rows carries,
/// in every gauge column, a value between the window's minimum and maximum
/// for that column, and it is stamped with the window's right end.
pub proof fn lemma_rollup_general_bounds(src: Seq<GeneralRow>, lo: int, hi: int, stamp: i64)
    requires
        g_window(src, lo, hi).len() > 0,
    ensures
        ({
            let win = g_window(src, lo, hi);
            let row = g_agg_row(win, stamp);
            &&& row.timestamp == stamp
            &&& min_u64(win.map_values(|r: GeneralRow| r.cpu_usage)) <= row.cpu_usage <= max_u64(
                win.map_values(|r: GeneralRow| r.cpu_usage),
            )
            &&& min_u64(win.map_values(|r: GeneralRow| r.mem_usage)) <= row.mem_usage <= max_u64(
                win.map_values(|r: GeneralRow| r.mem_usage),
            )
            &&& min_u64(win.map_values(|r: GeneralRow| r.swap_usage)) <= row.swap_usage <= max_u64(
                win.map_values(|r: GeneralRow| r.swap_usage),
            )
            &&& min_u64(win.map_values(|r: GeneralRow| r.load_avg_1)) <= row.load_avg_1 <= max_u64(
                win.map_values(|r: GeneralRow| r.load_avg_1),
            )
            &&& min_u64(win.map_values(|r: GeneralRow| r.load_avg_5)) <= row.load_avg_5 <= max_u64(
                win.map_values(|r: GeneralRow| r.load_avg_5),
            )
            &&& min_u64(win.map_values(|r: GeneralRow| r.load_avg_15)) <= row.load_avg_15
                <= max_u64(win.map_values(|r: GeneralRow| r.load_avg_15))
        }),
{
    let win = g_window(src, lo, hi);
    lemma_mean_between(win.map_values(|r: GeneralRow| r.cpu_usage));
    lemma_mean_between(win.map_values(|r: GeneralRow| r.mem_usage));
    lemma_mean_between(win.map_values(|r: GeneralRow| r.swap_usage));
    lemma_mean_between(win.map_values(|r: GeneralRow| r.load_avg_1));
    lemma_mean_between(win.map_values(|r: GeneralRow| r.load_avg_5));
    lemma_mean_between(win.map_values(|r: GeneralRow| r.load_avg_15));
}

/// A minute roll-up row of a `net` resource carries, in each cumulative
/// column, exactly the MAX over the window's rows of that resource, and in
/// each rate column a value between that group's minimum and maximum.
pub proof fn lemma_rollup_net_bounds(
    src: Seq<NetRowV>,
    lo: int,
    hi: int,
    stamp: i64,
    name: Seq<char>,
)
    requires
        n_names(n_window(src, lo, hi)).contains(name),
    ensures
        ({
            let win = n_window(src, lo, hi);
            let g = n_group(win, name);
            let row = n_agg_row(win, name, stamp);
            &&& row.timestamp == stamp
            &&& row.rx == max_u64(g.map_values(|r: NetRowV| r.rx))
            &&& row.tx == max_u64(g.map_values(|r: NetRowV| r.tx))
            &&& min_u64(g.map_values(|r: NetRowV| r.rx_rate)) <= row.rx_rate <= max_u64(
                g.map_values(|r: NetRowV| r.rx_rate),
            )
            &&& min_u64(g.map_values(|r: NetRowV| r.tx_rate)) <= row.tx_rate <= max_u64(
                g.map_values(|r: NetRowV| r.tx_rate),
            )
        }),
{
    let win = n_window(src, lo, hi);
    crate::rollup::lemma_n_group_nonempty(win, name);
    let g = n_group(win, name);
    lemma_mean_between(g.map_values(|r: NetRowV| r.rx_rate));
    lemma_mean_between(g.map_values(|r: NetRowV| r.tx_rate));
}

/// A minute roll-up row of a `disk` mount carries, in each cumulative
/// column, exactly the MAX over the window's rows of that mount, and in
/// each rate and usage column a value between that group's minimum and
/// maximum.
pub proof fn lemma_rollup_disk_bounds(
    src: Seq<DiskRowV>,
    lo: int,
    hi: int,
    stamp: i64,
    name: Seq<char>,
)
    requires
        d_names(d_window(src, lo, hi)).contains(name),
    ensures
        ({
            let win = d_window(src, lo, hi);
            let g = d_group(win, name);
            let row = d_agg_row(win, name, stamp);
            &&& row.timestamp == stamp
            &&& row.total_read == max_u64(g.map_values(|r: DiskRowV| r.total_read))
            &&& row.total_write == max_u64(g.map_values(|r: DiskRowV| r.total_write))
            &&& min_u64(g.map_values(|r: DiskRowV| r.read_rate)) <= row.read_rate <= max_u64(
                g.map_values(|r: DiskRowV| r.read_rate),
            )
            &&& min_u64(g.map_values(|r: DiskRowV| r.write_rate)) <= row.write_rate <= max_u64(
                g.map_values(|r: DiskRowV| r.write_rate),
            )
            &&& min_u64(g.map_values(|r: DiskRowV| r.disk_usage)) <= row.disk_usage <= max_u64(
                g.map_values(|r: DiskRowV| r.disk_usage),
            )
        }),
{
    let win = d_window(src, lo, hi);
    crate::rollup::lemma_d_group_nonempty(win, name);
    let g = d_group(win, name);
    lemma_mean_between(g.map_values(|r: DiskRowV| r.read_rate));
    lemma_mean_between(g.map_values(|r: DiskRowV| r.write_rate));
    lemma_mean_between(g.map_values(|r: DiskRowV| r.disk_usage));
}

/// Window-consistent evaluation for a `>` alert: an evaluator pass sets the
/// alert firing exactly when the window holds at least one value and every
/// value exceeds the threshold; in particular one violating value, or an
/// empty window, leaves the alert quiescent.
pub proof fn lemma_window_consistency(
    m: StoreModel,
    a: AlertView,
    methods: Seq<NotificationMethodV>,
    now: int,
)
    requires
        a.enabled,
        a.operator == ">"@,
        spec_check_alert(m, a, now) is Ok,
    ensures
        ({
            let vals = spec_alert_values(m, a, now);
            let after = spec_tick_alert(m, a, methods, now).0;
            after.firing <==> (vals.len() > 0 && forall|i: int|
                0 <= i < vals.len() ==> (#[trigger] vals[i]) as int > a.threshold as int)
        }),
{
    let vals = spec_alert_values(m, a, now);
    lemma_min_properties(vals);
    if vals.len() > 0 {
        if (min_u64(vals) as int) > a.threshold as int {
            assert(forall|i: int|
                0 <= i < vals.len() ==> (#[trigger] vals[i]) as int > a.threshold as int);
        } else {
            let j = choose|j: int| 0 <= j < vals.len() && vals[j] == min_u64(vals);
            assert(!(vals[j] as int > a.threshold as int));
        }
    }
}

/// Retention: after the aggregation pass of a tick that lands on a day
/// boundary `b`, no second-tier row is older than `b` minus one hour, no
/// minute-tier row older than `b` minus four days, and no hour-tier row
/// older than `b` minus 365 days.
pub proof fn lemma_retention(m: StoreModel, t: int, interval: int)
    requires
        t % 60 < interval,
        ((t - t % 60) / 60) % 60 == 0,
        ((t - t % 60) / 3600) % 24 == 0,
    ensures
        ({
            let b = t - t % 60;
            let m2 = spec_aggregate_tick(m, t, interval);
            &&& forall|i: int|
                0 <= i < m2.general_s.len() ==> (#[trigger] m2.general_s[i]).timestamp >= b
                    - RETAIN_SECONDS as int
            &&& forall|i: int|
                0 <= i < m2.net_s.len() ==> (#[trigger] m2.net_s[i]).timestamp >= b
                    - RETAIN_SECONDS as int
            &&& forall|i: int|
                0 <= i < m2.disk_s.len() ==> (#[trigger] m2.disk_s[i]).timestamp >= b
                    - RETAIN_SECONDS as int
            &&& forall|i: int|
                0 <= i < m2.general_m.len() ==> (#[trigger] m2.general_m[i]).timestamp >= b
                    - RETAIN_MINUTES as int
            &&& forall|i: int|
                0 <= i < m2.net_m.len() ==> (#[trigger] m2.net_m[i]).timestamp >= b
                    - RETAIN_MINUTES as int
            &&& forall|i: int|
                0 <= i < m2.disk_m.len() ==> (#[trigger] m2.disk_m[i]).timestamp >= b
                    - RETAIN_MINUTES as int
            &&& forall|i: int|
                0 <= i < m2.general_h.len() ==> (#[trigger] m2.general_h[i]).timestamp >= b
                    - RETAIN_HOURS as int
            &&& forall|i: int|
                0 <= i < m2.net_h.len() ==> (#[trigger] m2.net_h[i]).timestamp >= b
                    - RETAIN_HOURS as int
            &&& forall|i: int|
                0 <= i < m2.disk_h.len() ==> (#[trigger] m2.disk_h[i]).timestamp >= b
                    - RETAIN_HOURS as int
        }),
{
}

/// Rate derivation: with the counter moving forward, the stored rate is the
/// rounded per-second difference; a backward step stores 0.
pub proof fn lemma_rate_derivation(c0: u64, c1: u64, t0: int, t1: int)
    requires
        t0 < t1,
    ensures
        c1 >= c0 ==> spec_rate(c0, c1, t0, t1) == round_div(c1 - c0, t1 - t0),
        c1 < c0 ==> spec_rate(c0, c1, t0, t1) == 0,
{
    if c1 == c0 {
        let dt = t1 - t0;
        assert((2 * 0 + dt) / (2 * dt) == 0) by (nonlinear_arith)
            requires
                dt >= 1,
        ;
    }
}

/// One evaluator pass on one alert leaves nothing for a second pass over
/// the same data: the state is already consistent, so the second pass
/// changes nothing and dispatches nothing.
proof fn lemma_tick_alert_idempotent(
    m: StoreModel,
    a: AlertView,
    methods: Seq<NotificationMethodV>,
    now: int,
)
    ensures
        ({
            let a1 = spec_tick_alert(m, a, methods, now).0;
            let second = spec_tick_alert(m, a1, methods, now);
            second.0 == a1 && second.1.len() == 0
        }),
{
    let a1 = spec_tick_alert(m, a, methods, now).0;
    if a.enabled {
        match spec_check_alert(m, a, now) {
            Err(_) => {},
            Ok(f) => {
                if f != a.firing {
                    assert(a1 == (AlertView { firing: f, ..a }));
                    assert(spec_check_alert(m, a1, now) == spec_check_alert(m, a, now));
                }
            },
        }
    }
}

/// Idempotence of the evaluator: two consecutive passes over identical
/// underlying data produce no notifications on the second pass and leave
/// the alert list as the first pass left it — only edges fire.
pub proof fn lemma_evaluator_idempotent(
    m: StoreModel,
    alerts: Seq<AlertView>,
    methods: Seq<NotificationMethodV>,
    now: int,
)
    ensures
        ({
            let once = spec_evaluator_tick(m, alerts, methods, now);
            let twice = spec_evaluator_tick(m, once.0, methods, now);
            twice.0 == once.0 && twice.1.len() == 0
        }),
    decreases alerts.len(),
{
    let once = spec_evaluator_tick(m, alerts, methods, now);
    if alerts.len() == 0 {
        assert(once.0.len() == 0);
    } else {
        let head = spec_tick_alert(m, alerts[0], methods, now);
        let rest = spec_evaluator_tick(m, alerts.drop_first(), methods, now);
        lemma_tick_alert_idempotent(m, alerts[0], methods, now);
        lemma_evaluator_idempotent(m, alerts.drop_first(), methods, now);
        let twice_rest = spec_evaluator_tick(m, rest.0, methods, now);
        assert(once.0 == seq![head.0] + rest.0);
        assert(once.0.len() > 0);
        assert(once.0[0] == head.0);
        assert(once.0.drop_first() =~= rest.0);
        let head2 = spec_tick_alert(m, once.0[0], methods, now);
        assert(head2.0 == head.0 && head2.1.len() == 0);
        let twice = spec_evaluator_tick(m, once.0, methods, now);
        assert(twice.0 == seq![head2.0] + twice_rest.0);
        assert(twice.0 =~= once.0);
        assert(twice.1 =~= head2.1 + twice_rest.1);
        assert(twice.1.len() == 0);
    }
}

/// Timestamps listed in nondecreasing order.
pub open spec fn stamps_ascending(s: Seq<i64>) -> bool {
    forall|i: int, j: int| 0 <= i < j < s.len() ==> s[i] <= s[j]
}

proof fn lemma_g_rows_ordered_map(rows: Seq<GeneralRow>)
    requires
        forall|i: int, j: int|
            0 <= i < j < rows.len() ==> rows[i].timestamp <= rows[j].timestamp,
    ensures
        stamps_ascending(rows.map_values(|r: GeneralRow| r.timestamp)),
{
    let ts = rows.map_values(|r: GeneralRow| r.timestamp);
    assert forall|i: int, j: int| 0 <= i < j < ts.len() implies ts[i] <= ts[j] by {
        assert(rows[i].timestamp <= rows[j].timestamp);
    }
}

proof fn lemma_n_rows_ordered_map(rows: Seq<NetRowV>)
    requires
        forall|i: int, j: int|
            0 <= i < j < rows.len() ==> rows[i].timestamp <= rows[j].timestamp,
    ensures
        stamps_ascending(rows.map_values(|r: NetRowV| r.timestamp)),
{
    let ts = rows.map_values(|r: NetRowV| r.timestamp);
    assert forall|i: int, j: int| 0 <= i < j < ts.len() implies ts[i] <= ts[j] by {
        assert(rows[i].timestamp <= rows[j].timestamp);
    }
}

proof fn lemma_d_rows_ordered_map(rows: Seq<DiskRowV>)
    requires
        forall|i: int, j: int|
            0 <= i < j < rows.len() ==> rows[i].timestamp <= rows[j].timestamp,
    ensures
        stamps_ascending(rows.map_values(|r: DiskRowV| r.timestamp)),
{
    let ts = rows.map_values(|r: DiskRowV| r.timestamp);
    assert forall|i: int, j: int| 0 <= i < j < ts.len() implies ts[i] <= ts[j] by {
        assert(rows[i].timestamp <= rows[j].timestamp);
    }
}

proof fn lemma_g_kept_ordered(tbl: Seq<GeneralRow>, o: crate::model::HistoricalQueryOptionsV)
    requires
        crate::store::g_sorted(tbl),
    ensures
        forall|i: int, j: int|
            0 <= i < j < spec_g_kept(tbl, o).len() ==> spec_g_kept(tbl, o)[i].timestamp
                <= spec_g_kept(tbl, o)[j].timestamp,
{
    lemma_filter_sorted(
        tbl,
        |r: GeneralRow| spec_in_bounds(r.timestamp as int, o.start_time, o.end_time),
        |r: GeneralRow| r.timestamp as int,
    );
    assert(g_bounds(tbl, o.start_time, o.end_time) == tbl.filter(
        |r: GeneralRow| spec_in_bounds(r.timestamp as int, o.start_time, o.end_time),
    ));
}

proof fn lemma_n_kept_ordered(tbl: Seq<NetRowV>, o: crate::model::HistoricalQueryOptionsV)
    requires
        crate::store::n_sorted(tbl),
    ensures
        forall|i: int, j: int|
            0 <= i < j < spec_n_kept(tbl, o).len() ==> spec_n_kept(tbl, o)[i].timestamp
                <= spec_n_kept(tbl, o)[j].timestamp,
{
    lemma_filter_sorted(
        tbl,
        |r: NetRowV| spec_in_bounds(r.timestamp as int, o.start_time, o.end_time),
        |r: NetRowV| r.timestamp as int,
    );
    assert(n_bounds(tbl, o.start_time, o.end_time) == tbl.filter(
        |r: NetRowV| spec_in_bounds(r.timestamp as int, o.start_time, o.end_time),
    ));
}

proof fn lemma_d_kept_ordered(tbl: Seq<DiskRowV>, o: crate::model::HistoricalQueryOptionsV)
    requires
        crate::store::d_sorted(tbl),
    ensures
        forall|i: int, j: int|
            0 <= i < j < spec_d_kept(tbl, o).len() ==> spec_d_kept(tbl, o)[i].timestamp
                <= spec_d_kept(tbl, o)[j].timestamp,
{
    lemma_filter_sorted(
        tbl,
        |r: DiskRowV| spec_in_bounds(r.timestamp as int, o.start_time, o.end_time),
        |r: DiskRowV| r.timestamp as int,
    );
    assert(d_bounds(tbl, o.start_time, o.end_time) == tbl.filter(
        |r: DiskRowV| spec_in_bounds(r.timestamp as int, o.start_time, o.end_time),
    ));
}

proof fn lemma_n_series_list_ordered(kept: Seq<NetRowV>, names: Seq<Seq<char>>)
    requires
        crate::store::n_sorted(kept),
    ensures
        forall|k: int|
            0 <= k < spec_n_series_list(kept, names).len() ==> stamps_ascending(
                #[trigger] spec_n_series_list(kept, names)[k].timestamps,
            ),
    decreases names.len(),
{
    if names.len() > 0 {
        lemma_n_series_list_ordered(kept, names.drop_last());
        let prefix = spec_n_series_list(kept, names.drop_last());
        let block = crate::catalog::spec_net_vars().map_values(
            |col: Seq<char>| spec_n_series_one(kept, names.last(), col),
        );
        lemma_filter_sorted(
            kept,
            |r: NetRowV| r.name == names.last(),
            |r: NetRowV| r.timestamp as int,
        );
        lemma_n_rows_ordered_map(n_group(kept, names.last()));
        assert forall|k: int|
            0 <= k < spec_n_series_list(kept, names).len() implies stamps_ascending(
            #[trigger] spec_n_series_list(kept, names)[k].timestamps,
        ) by {
            if k < prefix.len() {
                assert(spec_n_series_list(kept, names)[k] == prefix[k]);
            } else {
                assert(spec_n_series_list(kept, names)[k] == block[k - prefix.len()]);
                assert(block[k - prefix.len()].timestamps == n_group(
                    kept,
                    names.last(),
                ).map_values(|r: NetRowV| r.timestamp));
            }
        }
    }
}

proof fn lemma_d_series_list_ordered(kept: Seq<DiskRowV>, names: Seq<Seq<char>>)
    requires
        crate::store::d_sorted(kept),
    ensures
        forall|k: int|
            0 <= k < spec_d_series_list(kept, names).len() ==> stamps_ascending(
                #[trigger] spec_d_series_list(kept, names)[k].timestamps,
            ),
    decreases names.len(),
{
    if names.len() > 0 {
        lemma_d_series_list_ordered(kept, names.drop_last());
        let prefix = spec_d_series_list(kept, names.drop_last());
        let block = crate::catalog::spec_disk_vars().map_values(
            |col: Seq<char>| spec_d_series_one(kept, names.last(), col),
        );
        lemma_filter_sorted(
            kept,
            |r: DiskRowV| r.name == names.last(),
            |r: DiskRowV| r.timestamp as int,
        );
        lemma_d_rows_ordered_map(d_group(kept, names.last()));
        assert forall|k: int|
            0 <= k < spec_d_series_list(kept, names).len() implies stamps_ascending(
            #[trigger] spec_d_series_list(kept, names)[k].timestamps,
        ) by {
            if k < prefix.len() {
                assert(spec_d_series_list(kept, names)[k] == prefix[k]);
            } else {
                assert(spec_d_series_list(kept, names)[k] == block[k - prefix.len()]);
                assert(block[k - prefix.len()].timestamps == d_group(
                    kept,
                    names.last(),
                ).map_values(|r: DiskRowV| r.timestamp));
            }
        }
    }
}

/// Every series a historical query returns lists its timestamps in
/// ascending order, because a well-formed store keeps each table ordered
/// and the query keeps rows in table order.
pub proof fn lemma_query_series_ordered(m: StoreModel, o: crate::model::HistoricalQueryOptionsV)
    requires
        crate::store::store_inv(m),
    ensures
        forall|k: int|
            0 <= k < spec_query_series(m, o).len() ==> stamps_ascending(
                #[trigger] spec_query_series(m, o)[k].timestamps,
            ),
{
    let res = spec_resolution_of(o.resolution);
    let gk = spec_g_kept(crate::store::general_at(m, res), o);
    let nk = spec_n_kept(crate::store::net_at(m, res), o);
    let dk = spec_d_kept(crate::store::disk_at(m, res), o);
    lemma_g_kept_ordered(crate::store::general_at(m, res), o);
    lemma_n_kept_ordered(crate::store::net_at(m, res), o);
    lemma_d_kept_ordered(crate::store::disk_at(m, res), o);
    lemma_g_rows_ordered_map(gk);
    lemma_n_series_list_ordered(nk, n_names(nk));
    lemma_d_series_list_ordered(dk, d_names(dk));
    let gs = spec_g_series(gk);
    let ns = spec_n_series_list(nk, n_names(nk));
    let ds = spec_d_series_list(dk, d_names(dk));
    assert forall|k: int|
        0 <= k < spec_query_series(m, o).len() implies stamps_ascending(
        #[trigger] spec_query_series(m, o)[k].timestamps,
    ) by {
        let all = spec_query_series(m, o);
        if k < gs.len() {
            assert(all[k] == gs[k]);
            assert(gs[k].timestamps == gk.map_values(|r: GeneralRow| r.timestamp));
        } else if k < gs.len() + ns.len() {
            assert(all[k] == ns[k - gs.len()]);
        } else {
            assert(all[k] == ds[k - gs.len() - ns.len()]);
        }
    }
}

} // verus!
