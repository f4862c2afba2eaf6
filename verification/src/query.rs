//! The read surface consumed by the API adapter: historical series over a
//! chosen tier, and the catalogue of alertable variables crossed with the
//! resources the store has seen.

use vstd::prelude::*;

use crate::alerts::{d_val, g_val, n_val};
use crate::catalog::{disk_vars, net_vars, spec_disk_vars, spec_net_vars, spec_sys_vars, sys_vars};
use crate::model::{AlertVar, AlertVarV, HistoricalQueryOptions, HistoricalQueryOptionsV,
    HistoricalSeries, HistoricalSeriesV};
use crate::rollup::{d_group, d_names, lemma_filter_push, n_group, n_names};
use crate::store::{
    disk_at, general_at, net_at, DiskRow, DiskRowV, GeneralRow, NetRow, NetRowV, Resolution,
    Store, StoreModel,
};
use crate::text::eq_str;

verus! {

/// The tier a query's `resolution` string selects; anything outside the
/// four known names falls back to minute data.
pub open spec fn spec_resolution_of(s: Seq<char>) -> Resolution {
    if s == "second"@ {
        Resolution::Second
    } else if s == "hour"@ {
        Resolution::Hour
    } else if s == "day"@ {
        Resolution::Day
    } else {
        Resolution::Minute
    }
}

/// Whether a timestamp lies within the optional query bounds.
pub open spec fn spec_in_bounds(ts: int, start: Option<i64>, end: Option<i64>) -> bool {
    &&& (match start {
        Some(s) => ts >= s,
        None => true,
    })
    &&& (match end {
        Some(e) => ts <= e,
        None => true,
    })
}

/// The rows of a `general` table inside the optional bounds.
pub open spec fn g_bounds(tbl: Seq<GeneralRow>, start: Option<i64>, end: Option<i64>) -> Seq<
    GeneralRow,
> {
    tbl.filter(|r: GeneralRow| spec_in_bounds(r.timestamp as int, start, end))
}

/// The rows of a `net` table inside the optional bounds.
pub open spec fn n_bounds(tbl: Seq<NetRowV>, start: Option<i64>, end: Option<i64>) -> Seq<
    NetRowV,
> {
    tbl.filter(|r: NetRowV| spec_in_bounds(r.timestamp as int, start, end))
}

/// The rows of a `disk` table inside the optional bounds.
pub open spec fn d_bounds(tbl: Seq<DiskRowV>, start: Option<i64>, end: Option<i64>) -> Seq<
    DiskRowV,
> {
    tbl.filter(|r: DiskRowV| spec_in_bounds(r.timestamp as int, start, end))
}

proof fn lemma_g_bounds_push(s: Seq<GeneralRow>, start: Option<i64>, end: Option<i64>, x: GeneralRow)
    ensures
        g_bounds(s.push(x), start, end) == if spec_in_bounds(x.timestamp as int, start, end) {
            g_bounds(s, start, end).push(x)
        } else {
            g_bounds(s, start, end)
        },
{
    reveal(Seq::filter);
    assert(s.push(x).drop_last() =~= s);
    assert(s.push(x).last() == x);
}

proof fn lemma_n_bounds_push(s: Seq<NetRowV>, start: Option<i64>, end: Option<i64>, x: NetRowV)
    ensures
        n_bounds(s.push(x), start, end) == if spec_in_bounds(x.timestamp as int, start, end) {
            n_bounds(s, start, end).push(x)
        } else {
            n_bounds(s, start, end)
        },
{
    reveal(Seq::filter);
    assert(s.push(x).drop_last() =~= s);
    assert(s.push(x).last() == x);
}

proof fn lemma_d_bounds_push(s: Seq<DiskRowV>, start: Option<i64>, end: Option<i64>, x: DiskRowV)
    ensures
        d_bounds(s.push(x), start, end) == if spec_in_bounds(x.timestamp as int, start, end) {
            d_bounds(s, start, end).push(x)
        } else {
            d_bounds(s, start, end)
        },
{
    reveal(Seq::filter);
    assert(s.push(x).drop_last() =~= s);
    assert(s.push(x).last() == x);
}

/// A row limit applied per table: the first `l` rows in timestamp order; a
/// negative limit means no limit.
pub open spec fn spec_apply_limit<A>(s: Seq<A>, limit: Option<i64>) -> Seq<A> {
    match limit {
        Some(l) => if 0 <= l < s.len() {
            s.take(l as int)
        } else {
            s
        },
        None => s,
    }
}

/// The rows of the `general` table a query reads, bounds and limit applied.
pub open spec fn spec_g_kept(tbl: Seq<GeneralRow>, o: HistoricalQueryOptionsV) -> Seq<GeneralRow> {
    spec_apply_limit(g_bounds(tbl, o.start_time, o.end_time), o.limit)
}

/// The rows of the `net` table a query reads, bounds and limit applied.
pub open spec fn spec_n_kept(tbl: Seq<NetRowV>, o: HistoricalQueryOptionsV) -> Seq<NetRowV> {
    spec_apply_limit(n_bounds(tbl, o.start_time, o.end_time), o.limit)
}

/// The rows of the `disk` table a query reads, bounds and limit applied.
pub open spec fn spec_d_kept(tbl: Seq<DiskRowV>, o: HistoricalQueryOptionsV) -> Seq<DiskRowV> {
    spec_apply_limit(d_bounds(tbl, o.start_time, o.end_time), o.limit)
}

/// One `general` series: a gauge column over the kept rows, under the
/// resource name `system`.
pub open spec fn spec_g_series_one(kept: Seq<GeneralRow>, col: Seq<char>) -> HistoricalSeriesV {
    HistoricalSeriesV {
        cat: "general"@,
        stype: col,
        name: "system"@,
        timestamps: kept.map_values(|r: GeneralRow| r.timestamp),
        values: kept.map_values(|r: GeneralRow| g_val(r, col)),
    }
}

/// The `general` series of a query: one per gauge column, in table order;
/// none when no row is in range.
pub open spec fn spec_g_series(kept: Seq<GeneralRow>) -> Seq<HistoricalSeriesV> {
    if kept.len() == 0 {
        Seq::<HistoricalSeriesV>::empty()
    } else {
        spec_sys_vars().map_values(|col: Seq<char>| spec_g_series_one(kept, col))
    }
}

/// One `net` series: a rate column of one interface over the kept rows.
pub open spec fn spec_n_series_one(kept: Seq<NetRowV>, name: Seq<char>, col: Seq<char>)
    -> HistoricalSeriesV {
    HistoricalSeriesV {
        cat: "net"@,
        stype: col,
        name: name,
        timestamps: n_group(kept, name).map_values(|r: NetRowV| r.timestamp),
        values: n_group(kept, name).map_values(|r: NetRowV| n_val(r, col)),
    }
}

/// The `net` series of the interfaces in `names`: per interface one series
/// per rate column; the raw cumulative counters are not returned.
pub open spec fn spec_n_series_list(kept: Seq<NetRowV>, names: Seq<Seq<char>>) -> Seq<
    HistoricalSeriesV,
>
    decreases names.len(),
{
    if names.len() == 0 {
        Seq::<HistoricalSeriesV>::empty()
    } else {
        spec_n_series_list(kept, names.drop_last()) + spec_net_vars().map_values(
            |col: Seq<char>| spec_n_series_one(kept, names.last(), col),
        )
    }
}

/// One `disk` series: a rate or usage column of one mount over the kept rows.
pub open spec fn spec_d_series_one(kept: Seq<DiskRowV>, name: Seq<char>, col: Seq<char>)
    -> HistoricalSeriesV {
    HistoricalSeriesV {
        cat: "disk"@,
        stype: col,
        name: name,
        timestamps: d_group(kept, name).map_values(|r: DiskRowV| r.timestamp),
        values: d_group(kept, name).map_values(|r: DiskRowV| d_val(r, col)),
    }
}

/// The `disk` series of the mounts in `names`: per mount one series per
/// rate/usage column; the raw cumulative counters are not returned.
pub open spec fn spec_d_series_list(kept: Seq<DiskRowV>, names: Seq<Seq<char>>) -> Seq<
    HistoricalSeriesV,
>
    decreases names.len(),
{
    if names.len() == 0 {
        Seq::<HistoricalSeriesV>::empty()
    } else {
        spec_d_series_list(kept, names.drop_last()) + spec_disk_vars().map_values(
            |col: Seq<char>| spec_d_series_one(kept, names.last(), col),
        )
    }
}

/// Everything a historical query returns: the `general` series, then the
/// `net` series by interface, then the `disk` series by mount; rows in
/// timestamp order, bounds and per-table limit applied.
pub open spec fn spec_query_series(m: StoreModel, o: HistoricalQueryOptionsV) -> Seq<
    HistoricalSeriesV,
> {
    let res = spec_resolution_of(o.resolution);
    let gk = spec_g_kept(general_at(m, res), o);
    let nk = spec_n_kept(net_at(m, res), o);
    let dk = spec_d_kept(disk_at(m, res), o);
    spec_g_series(gk) + spec_n_series_list(nk, n_names(nk)) + spec_d_series_list(dk, d_names(dk))
}

/// The alertable variables the store offers: each interface seen by the raw
/// `net` table crossed with the `net` columns, each mount seen by the raw
/// `disk` table crossed with the `disk` columns, then the `sys` columns
/// under the resource key `sys`.
pub open spec fn spec_cross_vars(cat: Seq<char>, names: Seq<Seq<char>>, cols: Seq<Seq<char>>)
    -> Seq<AlertVarV>
    decreases names.len(),
{
    if names.len() == 0 {
        Seq::<AlertVarV>::empty()
    } else {
        spec_cross_vars(cat, names.drop_last(), cols) + cols.map_values(
            |c: Seq<char>| AlertVarV { cat: cat, var: c, resrc: names.last() },
        )
    }
}

/// See [`spec_cross_vars`]: the full catalogue the store offers.
pub open spec fn spec_resource_list(m: StoreModel) -> Seq<AlertVarV> {
    spec_cross_vars("net"@, n_names(m.net_s), spec_net_vars()) + spec_cross_vars(
        "disk"@,
        d_names(m.disk_s),
        spec_disk_vars(),
    ) + spec_sys_vars().map_values(|c: Seq<char>| AlertVarV { cat: "sys"@, var: c, resrc: "sys"@ })
}

fn g_kept_vec(tbl: &Vec<GeneralRow>, o: &HistoricalQueryOptions) -> (r: Vec<GeneralRow>)
    ensures
        r@ == spec_g_kept(tbl@, o@),
{
    let ghost st = o.start_time;
    let ghost en = o.end_time;
    let mut out: Vec<GeneralRow> = Vec::new();
    let mut i: usize = 0;
    proof {
        assert(tbl@.take(0) =~= Seq::<GeneralRow>::empty());
        assert(g_bounds(tbl@.take(0), st, en) =~= Seq::<GeneralRow>::empty());
    }
    while i < tbl.len()
        invariant
            i <= tbl@.len(),
            st == o.start_time && en == o.end_time,
            out@ == g_bounds(tbl@.take(i as int), st, en),
        decreases tbl@.len() - i,
    {
        let row = tbl[i];
        proof {
            lemma_g_bounds_push(tbl@.take(i as int), st, en, row);
            assert(tbl@.take(i as int).push(row) =~= tbl@.take(i + 1));
        }
        let ok_start = match o.start_time {
            Some(s) => row.timestamp >= s,
            None => true,
        };
        let ok_end = match o.end_time {
            Some(e) => row.timestamp <= e,
            None => true,
        };
        if ok_start && ok_end {
            out.push(row);
        }
        i += 1;
    }
    proof {
        assert(tbl@.take(i as int) =~= tbl@);
    }
    match o.limit {
        Some(l) => {
            if 0 <= l && (l as u128) < (out.len() as u128) {
                out.truncate(l as usize);
                proof {
                    assert(out@ =~= spec_g_kept(tbl@, o@));
                }
            }
        },
        None => {},
    }
    out
}

fn n_kept_vec(tbl: &Vec<NetRow>, o: &HistoricalQueryOptions) -> (r: Vec<NetRow>)
    ensures
        r.deep_view() == spec_n_kept(tbl.deep_view(), o@),
{
    let ghost st = o.start_time;
    let ghost en = o.end_time;
    let mut out: Vec<NetRow> = Vec::new();
    let mut i: usize = 0;
    proof {
        assert(tbl.deep_view().take(0) =~= Seq::<NetRowV>::empty());
        assert(n_bounds(tbl.deep_view().take(0), st, en) =~= Seq::<NetRowV>::empty());
    }
    while i < tbl.len()
        invariant
            i <= tbl@.len(),
            tbl@.len() == tbl.deep_view().len(),
            st == o.start_time && en == o.end_time,
            out.deep_view() == n_bounds(tbl.deep_view().take(i as int), st, en),
        decreases tbl@.len() - i,
    {
        let ghost rv = tbl.deep_view()[i as int];
        proof {
            lemma_n_bounds_push(tbl.deep_view().take(i as int), st, en, rv);
            assert(tbl.deep_view().take(i as int).push(rv) =~= tbl.deep_view().take(i + 1));
        }
        let ok_start = match o.start_time {
            Some(s) => tbl[i].timestamp >= s,
            None => true,
        };
        let ok_end = match o.end_time {
            Some(e) => tbl[i].timestamp <= e,
            None => true,
        };
        if ok_start && ok_end {
            let row = tbl[i].duplicate();
            let ghost outpre = out.deep_view();
            out.push(row);
            proof {
                assert(out.deep_view() =~= outpre.push(rv));
            }
        }
        i += 1;
    }
    proof {
        assert(tbl.deep_view().take(i as int) =~= tbl.deep_view());
    }
    match o.limit {
        Some(l) => {
            if 0 <= l && (l as u128) < (out.len() as u128) {
                let ghost pre = out.deep_view();
                out.truncate(l as usize);
                proof {
                    assert(out.deep_view() =~= pre.take(l as int));
                    assert(out.deep_view() =~= spec_n_kept(tbl.deep_view(), o@));
                }
            }
        },
        None => {},
    }
    out
}

fn d_kept_vec(tbl: &Vec<DiskRow>, o: &HistoricalQueryOptions) -> (r: Vec<DiskRow>)
    ensures
        r.deep_view() == spec_d_kept(tbl.deep_view(), o@),
{
    let ghost st = o.start_time;
    let ghost en = o.end_time;
    let mut out: Vec<DiskRow> = Vec::new();
    let mut i: usize = 0;
    proof {
        assert(tbl.deep_view().take(0) =~= Seq::<DiskRowV>::empty());
        assert(d_bounds(tbl.deep_view().take(0), st, en) =~= Seq::<DiskRowV>::empty());
    }
    while i < tbl.len()
        invariant
            i <= tbl@.len(),
            tbl@.len() == tbl.deep_view().len(),
            st == o.start_time && en == o.end_time,
            out.deep_view() == d_bounds(tbl.deep_view().take(i as int), st, en),
        decreases tbl@.len() - i,
    {
        let ghost rv = tbl.deep_view()[i as int];
        proof {
            lemma_d_bounds_push(tbl.deep_view().take(i as int), st, en, rv);
            assert(tbl.deep_view().take(i as int).push(rv) =~= tbl.deep_view().take(i + 1));
        }
        let ok_start = match o.start_time {
            Some(s) => tbl[i].timestamp >= s,
            None => true,
        };
        let ok_end = match o.end_time {
            Some(e) => tbl[i].timestamp <= e,
            None => true,
        };
        if ok_start && ok_end {
            let row = tbl[i].duplicate();
            let ghost outpre = out.deep_view();
            out.push(row);
            proof {
                assert(out.deep_view() =~= outpre.push(rv));
            }
        }
        i += 1;
    }
    proof {
        assert(tbl.deep_view().take(i as int) =~= tbl.deep_view());
    }
    match o.limit {
        Some(l) => {
            if 0 <= l && (l as u128) < (out.len() as u128) {
                let ghost pre = out.deep_view();
                out.truncate(l as usize);
                proof {
                    assert(out.deep_view() =~= pre.take(l as int));
                    assert(out.deep_view() =~= spec_d_kept(tbl.deep_view(), o@));
                }
            }
        },
        None => {},
    }
    out
}

fn g_series_for(kept: &Vec<GeneralRow>, col: String) -> (r: HistoricalSeries)
    ensures
        r@ == spec_g_series_one(kept@, col@),
{
    let mut ts: Vec<i64> = Vec::new();
    let mut vals: Vec<u64> = Vec::new();
    let mut i: usize = 0;
    proof {
        assert(ts@ =~= kept@.take(0).map_values(|r: GeneralRow| r.timestamp));
        assert(vals@ =~= kept@.take(0).map_values(|r: GeneralRow| g_val(r, col@)));
    }
    while i < kept.len()
        invariant
            i <= kept@.len(),
            ts@ == kept@.take(i as int).map_values(|r: GeneralRow| r.timestamp),
            vals@ == kept@.take(i as int).map_values(|r: GeneralRow| g_val(r, col@)),
        decreases kept@.len() - i,
    {
        let row = kept[i];
        ts.push(row.timestamp);
        vals.push(crate::alerts::general_value(&row, &col));
        proof {
            assert(kept@.take(i + 1).drop_last() =~= kept@.take(i as int));
            assert(ts@ =~= kept@.take(i + 1).map_values(|r: GeneralRow| r.timestamp));
            assert(vals@ =~= kept@.take(i + 1).map_values(|r: GeneralRow| g_val(r, col@)));
        }
        i += 1;
    }
    proof {
        assert(kept@.take(i as int) =~= kept@);
    }
    HistoricalSeries {
        cat: "general".to_owned(),
        stype: col,
        name: "system".to_owned(),
        timestamps: ts,
        values: vals,
    }
}

fn n_group_vec(kept: &Vec<NetRow>, name: &String) -> (r: Vec<NetRow>)
    ensures
        r.deep_view() == n_group(kept.deep_view(), name@),
{
    let mut out: Vec<NetRow> = Vec::new();
    let mut i: usize = 0;
    proof {
        assert(kept.deep_view().take(0) =~= Seq::<NetRowV>::empty());
        reveal(Seq::filter);
    }
    while i < kept.len()
        invariant
            i <= kept@.len(),
            kept@.len() == kept.deep_view().len(),
            out.deep_view() == n_group(kept.deep_view().take(i as int), name@),
        decreases kept@.len() - i,
    {
        let ghost rv = kept.deep_view()[i as int];
        proof {
            lemma_filter_push(kept.deep_view().take(i as int), |r: NetRowV| r.name == name@, rv);
            assert(kept.deep_view().take(i as int).push(rv) =~= kept.deep_view().take(i + 1));
        }
        if kept[i].name.eq(name) {
            let row = kept[i].duplicate();
            let ghost outpre = out.deep_view();
            out.push(row);
            proof {
                assert(out.deep_view() =~= outpre.push(rv));
            }
        }
        i += 1;
    }
    proof {
        assert(kept.deep_view().take(i as int) =~= kept.deep_view());
    }
    out
}

fn d_group_vec(kept: &Vec<DiskRow>, name: &String) -> (r: Vec<DiskRow>)
    ensures
        r.deep_view() == d_group(kept.deep_view(), name@),
{
    let mut out: Vec<DiskRow> = Vec::new();
    let mut i: usize = 0;
    proof {
        assert(kept.deep_view().take(0) =~= Seq::<DiskRowV>::empty());
        reveal(Seq::filter);
    }
    while i < kept.len()
        invariant
            i <= kept@.len(),
            kept@.len() == kept.deep_view().len(),
            out.deep_view() == d_group(kept.deep_view().take(i as int), name@),
        decreases kept@.len() - i,
    {
        let ghost rv = kept.deep_view()[i as int];
        proof {
            lemma_filter_push(kept.deep_view().take(i as int), |r: DiskRowV| r.name == name@, rv);
            assert(kept.deep_view().take(i as int).push(rv) =~= kept.deep_view().take(i + 1));
        }
        if kept[i].name.eq(name) {
            let row = kept[i].duplicate();
            let ghost outpre = out.deep_view();
            out.push(row);
            proof {
                assert(out.deep_view() =~= outpre.push(rv));
            }
        }
        i += 1;
    }
    proof {
        assert(kept.deep_view().take(i as int) =~= kept.deep_view());
    }
    out
}

fn n_series_for(kept: &Vec<NetRow>, name: &String, col: String) -> (r: HistoricalSeries)
    ensures
        r@ == spec_n_series_one(kept.deep_view(), name@, col@),
{
    let grp = n_group_vec(kept, name);
    let mut ts: Vec<i64> = Vec::new();
    let mut vals: Vec<u64> = Vec::new();
    let mut i: usize = 0;
    proof {
        assert(ts@ =~= grp.deep_view().take(0).map_values(|r: NetRowV| r.timestamp));
        assert(vals@ =~= grp.deep_view().take(0).map_values(|r: NetRowV| n_val(r, col@)));
    }
    while i < grp.len()
        invariant
            i <= grp@.len(),
            grp@.len() == grp.deep_view().len(),
            ts@ == grp.deep_view().take(i as int).map_values(|r: NetRowV| r.timestamp),
            vals@ == grp.deep_view().take(i as int).map_values(|r: NetRowV| n_val(r, col@)),
        decreases grp@.len() - i,
    {
        ts.push(grp[i].timestamp);
        vals.push(crate::alerts::net_value(&grp[i], &col));
        proof {
            assert(grp.deep_view().take(i + 1).drop_last() =~= grp.deep_view().take(i as int));
            assert(ts@ =~= grp.deep_view().take(i + 1).map_values(|r: NetRowV| r.timestamp));
            assert(vals@ =~= grp.deep_view().take(i + 1).map_values(
                |r: NetRowV| n_val(r, col@),
            ));
        }
        i += 1;
    }
    proof {
        assert(grp.deep_view().take(i as int) =~= grp.deep_view());
    }
    HistoricalSeries {
        cat: "net".to_owned(),
        stype: col,
        name: name.clone(),
        timestamps: ts,
        values: vals,
    }
}

fn d_series_for(kept: &Vec<DiskRow>, name: &String, col: String) -> (r: HistoricalSeries)
    ensures
        r@ == spec_d_series_one(kept.deep_view(), name@, col@),
{
    let grp = d_group_vec(kept, name);
    let mut ts: Vec<i64> = Vec::new();
    let mut vals: Vec<u64> = Vec::new();
    let mut i: usize = 0;
    proof {
        assert(ts@ =~= grp.deep_view().take(0).map_values(|r: DiskRowV| r.timestamp));
        assert(vals@ =~= grp.deep_view().take(0).map_values(|r: DiskRowV| d_val(r, col@)));
    }
    while i < grp.len()
        invariant
            i <= grp@.len(),
            grp@.len() == grp.deep_view().len(),
            ts@ == grp.deep_view().take(i as int).map_values(|r: DiskRowV| r.timestamp),
            vals@ == grp.deep_view().take(i as int).map_values(|r: DiskRowV| d_val(r, col@)),
        decreases grp@.len() - i,
    {
        ts.push(grp[i].timestamp);
        vals.push(crate::alerts::disk_value(&grp[i], &col));
        proof {
            assert(grp.deep_view().take(i + 1).drop_last() =~= grp.deep_view().take(i as int));
            assert(ts@ =~= grp.deep_view().take(i + 1).map_values(|r: DiskRowV| r.timestamp));
            assert(vals@ =~= grp.deep_view().take(i + 1).map_values(
                |r: DiskRowV| d_val(r, col@),
            ));
        }
        i += 1;
    }
    proof {
        assert(grp.deep_view().take(i as int) =~= grp.deep_view());
    }
    HistoricalSeries {
        cat: "disk".to_owned(),
        stype: col,
        name: name.clone(),
        timestamps: ts,
        values: vals,
    }
}

impl Store {
    /// Answers a historical query: for the chosen tier, the `general` gauge
    /// columns as series under the name `system`, then per interface and per
    /// mount one series per rate/usage column. Raw cumulative counters are
    /// not returned; rows come in timestamp order, bounds and per-table
    /// limit applied.
    pub fn query_historical_data(&self, options: &HistoricalQueryOptions) -> (r: Vec<
        HistoricalSeries,
    >)
        ensures
            r.deep_view() == spec_query_series(self@, options@),
    {
        let is_second = eq_str(&options.resolution, "second");
        let is_hour = eq_str(&options.resolution, "hour");
        let is_day = eq_str(&options.resolution, "day");
        let res = if is_second {
            Resolution::Second
        } else if is_hour {
            Resolution::Hour
        } else if is_day {
            Resolution::Day
        } else {
            Resolution::Minute
        };
        proof {
            assert(res == spec_resolution_of(options@.resolution));
        }
        let gk = g_kept_vec(self.general_table(res), options);
        let nk = n_kept_vec(self.net_table(res), options);
        let dk = d_kept_vec(self.disk_table(res), options);
        let ghost expect = spec_query_series(self@, options@);
        let mut out: Vec<HistoricalSeries> = Vec::new();
        if gk.len() > 0 {
            let cols = sys_vars();
            let mut j: usize = 0;
            proof {
                assert(out.deep_view() =~= spec_sys_vars().map_values(
                    |col: Seq<char>| spec_g_series_one(gk@, col),
                ).take(0));
            }
            while j < cols.len()
                invariant
                    j <= cols@.len(),
                    cols.deep_view() == spec_sys_vars(),
                    cols@.len() == spec_sys_vars().len(),
                    gk@ == spec_g_kept(general_at(self@, res), options@),
                    out.deep_view() == spec_sys_vars().map_values(
                        |col: Seq<char>| spec_g_series_one(gk@, col),
                    ).take(j as int),
                decreases cols@.len() - j,
            {
                let col = cols[j].clone();
                let s = g_series_for(&gk, col);
                let ghost outpre = out.deep_view();
                out.push(s);
                proof {
                    assert(cols@[j as int]@ == spec_sys_vars()[j as int]);
                    assert(out.deep_view() =~= outpre.push(
                        spec_g_series_one(gk@, spec_sys_vars()[j as int]),
                    ));
                    assert(out.deep_view() =~= spec_sys_vars().map_values(
                        |col2: Seq<char>| spec_g_series_one(gk@, col2),
                    ).take(j + 1));
                }
                j += 1;
            }
            proof {
                assert(spec_sys_vars().map_values(
                    |col: Seq<char>| spec_g_series_one(gk@, col),
                ).take(j as int) =~= spec_g_series(gk@));
            }
        } else {
            proof {
                assert(out.deep_view() =~= spec_g_series(gk@));
            }
        }
        let ghost gdone = out.deep_view();
        let nnames = crate::rollup::n_collect_names(&nk);
        let ncols = net_vars();
        let mut r_i: usize = 0;
        proof {
            assert(nnames.deep_view().take(0) =~= Seq::<Seq<char>>::empty());
            assert(gdone + spec_n_series_list(nk.deep_view(), nnames.deep_view().take(0)) =~= gdone);
        }
        while r_i < nnames.len()
            invariant
                r_i <= nnames@.len(),
                nnames@.len() == nnames.deep_view().len(),
                nnames.deep_view() == n_names(nk.deep_view()),
                ncols.deep_view() == spec_net_vars(),
                ncols@.len() == spec_net_vars().len(),
                out.deep_view() == gdone + spec_n_series_list(
                    nk.deep_view(),
                    nnames.deep_view().take(r_i as int),
                ),
            decreases nnames@.len() - r_i,
        {
            let ghost nm = nnames.deep_view()[r_i as int];
            let ghost block = spec_net_vars().map_values(
                |col: Seq<char>| spec_n_series_one(nk.deep_view(), nm, col),
            );
            let mut j: usize = 0;
            let ghost pre_block = out.deep_view();
            proof {
                assert(pre_block + block.take(0) =~= pre_block);
            }
            while j < ncols.len()
                invariant
                    j <= ncols@.len(),
                    r_i < nnames@.len(),
                    nnames@.len() == nnames.deep_view().len(),
                    ncols.deep_view() == spec_net_vars(),
                    ncols@.len() == spec_net_vars().len(),
                    nm == nnames.deep_view()[r_i as int],
                    block == spec_net_vars().map_values(
                        |col: Seq<char>| spec_n_series_one(nk.deep_view(), nm, col),
                    ),
                    out.deep_view() == pre_block + block.take(j as int),
                decreases ncols@.len() - j,
            {
                let col = ncols[j].clone();
                let s = n_series_for(&nk, &nnames[r_i], col);
                let ghost outpre = out.deep_view();
                out.push(s);
                proof {
                    assert(ncols@[j as int]@ == spec_net_vars()[j as int]);
                    assert(nnames@[r_i as int]@ == nm);
                    assert(out.deep_view() =~= outpre.push(block[j as int]));
                    assert(outpre.push(block[j as int]) =~= pre_block + block.take(j + 1));
                }
                j += 1;
            }
            proof {
                assert(block.take(j as int) =~= block);
                assert(nnames.deep_view().take(r_i + 1).drop_last() =~= nnames.deep_view().take(
                    r_i as int,
                ));
                assert(nnames.deep_view().take(r_i + 1).last() == nm);
                assert(pre_block + block =~= gdone + spec_n_series_list(
                    nk.deep_view(),
                    nnames.deep_view().take(r_i + 1),
                ));
            }
            r_i += 1;
        }
        proof {
            assert(nnames.deep_view().take(r_i as int) =~= nnames.deep_view());
        }
        let ghost ndone = out.deep_view();
        let dnames = crate::rollup::d_collect_names(&dk);
        let dcols = disk_vars();
        let mut r_k: usize = 0;
        proof {
            assert(dnames.deep_view().take(0) =~= Seq::<Seq<char>>::empty());
            assert(ndone + spec_d_series_list(dk.deep_view(), dnames.deep_view().take(0)) =~= ndone);
        }
        while r_k < dnames.len()
            invariant
                r_k <= dnames@.len(),
                dnames@.len() == dnames.deep_view().len(),
                dnames.deep_view() == d_names(dk.deep_view()),
                dcols.deep_view() == spec_disk_vars(),
                dcols@.len() == spec_disk_vars().len(),
                out.deep_view() == ndone + spec_d_series_list(
                    dk.deep_view(),
                    dnames.deep_view().take(r_k as int),
                ),
            decreases dnames@.len() - r_k,
        {
            let ghost nm = dnames.deep_view()[r_k as int];
            let ghost block = spec_disk_vars().map_values(
                |col: Seq<char>| spec_d_series_one(dk.deep_view(), nm, col),
            );
            let mut j: usize = 0;
            let ghost pre_block = out.deep_view();
            proof {
                assert(pre_block + block.take(0) =~= pre_block);
            }
            while j < dcols.len()
                invariant
                    j <= dcols@.len(),
                    r_k < dnames@.len(),
                    dnames@.len() == dnames.deep_view().len(),
                    dcols.deep_view() == spec_disk_vars(),
                    dcols@.len() == spec_disk_vars().len(),
                    nm == dnames.deep_view()[r_k as int],
                    block == spec_disk_vars().map_values(
                        |col: Seq<char>| spec_d_series_one(dk.deep_view(), nm, col),
                    ),
                    out.deep_view() == pre_block + block.take(j as int),
                decreases dcols@.len() - j,
            {
                let col = dcols[j].clone();
                let s = d_series_for(&dk, &dnames[r_k], col);
                let ghost outpre = out.deep_view();
                out.push(s);
                proof {
                    assert(dcols@[j as int]@ == spec_disk_vars()[j as int]);
                    assert(dnames@[r_k as int]@ == nm);
                    assert(out.deep_view() =~= outpre.push(block[j as int]));
                    assert(outpre.push(block[j as int]) =~= pre_block + block.take(j + 1));
                }
                j += 1;
            }
            proof {
                assert(block.take(j as int) =~= block);
                assert(dnames.deep_view().take(r_k + 1).drop_last() =~= dnames.deep_view().take(
                    r_k as int,
                ));
                assert(dnames.deep_view().take(r_k + 1).last() == nm);
                assert(pre_block + block =~= ndone + spec_d_series_list(
                    dk.deep_view(),
                    dnames.deep_view().take(r_k + 1),
                ));
            }
            r_k += 1;
        }
        proof {
            assert(dnames.deep_view().take(r_k as int) =~= dnames.deep_view());
            assert(out.deep_view() =~= expect);
        }
        out
    }

    /// Enumerates the alertable variables this store offers; see
    /// [`spec_resource_list`].
    pub fn get_resource_list(&self) -> (r: Vec<AlertVar>)
        ensures
            r.deep_view() == spec_resource_list(self@),
    {
        let mut out: Vec<AlertVar> = Vec::new();
        let nnames = crate::rollup::n_collect_names(&self.net_s);
        let ncols = net_vars();
        let mut r_i: usize = 0;
        proof {
            assert(nnames.deep_view().take(0) =~= Seq::<Seq<char>>::empty());
            assert(out.deep_view() =~= spec_cross_vars(
                "net"@,
                nnames.deep_view().take(0),
                spec_net_vars(),
            ));
        }
        while r_i < nnames.len()
            invariant
                r_i <= nnames@.len(),
                nnames@.len() == nnames.deep_view().len(),
                nnames.deep_view() == n_names(self@.net_s),
                ncols.deep_view() == spec_net_vars(),
                ncols@.len() == spec_net_vars().len(),
                out.deep_view() == spec_cross_vars(
                    "net"@,
                    nnames.deep_view().take(r_i as int),
                    spec_net_vars(),
                ),
            decreases nnames@.len() - r_i,
        {
            let ghost nm = nnames.deep_view()[r_i as int];
            let ghost block = spec_net_vars().map_values(
                |c: Seq<char>| AlertVarV { cat: "net"@, var: c, resrc: nm },
            );
            let ghost pre_block = out.deep_view();
            let mut j: usize = 0;
            proof {
                assert(pre_block + block.take(0) =~= pre_block);
            }
            while j < ncols.len()
                invariant
                    j <= ncols@.len(),
                    r_i < nnames@.len(),
                    nnames@.len() == nnames.deep_view().len(),
                    ncols.deep_view() == spec_net_vars(),
                    ncols@.len() == spec_net_vars().len(),
                    nm == nnames.deep_view()[r_i as int],
                    block == spec_net_vars().map_values(
                        |c: Seq<char>| AlertVarV { cat: "net"@, var: c, resrc: nm },
                    ),
                    out.deep_view() == pre_block + block.take(j as int),
                decreases ncols@.len() - j,
            {
                let v = AlertVar {
                    cat: "net".to_owned(),
                    var: ncols[j].clone(),
                    resrc: nnames[r_i].clone(),
                };
                let ghost outpre = out.deep_view();
                out.push(v);
                proof {
                    assert(ncols@[j as int]@ == spec_net_vars()[j as int]);
                    assert(nnames@[r_i as int]@ == nm);
                    assert(out.deep_view() =~= outpre.push(block[j as int]));
                    assert(outpre.push(block[j as int]) =~= pre_block + block.take(j + 1));
                }
                j += 1;
            }
            proof {
                assert(block.take(j as int) =~= block);
                assert(nnames.deep_view().take(r_i + 1).drop_last() =~= nnames.deep_view().take(
                    r_i as int,
                ));
                assert(nnames.deep_view().take(r_i + 1).last() == nm);
            }
            r_i += 1;
        }
        proof {
            assert(nnames.deep_view().take(r_i as int) =~= nnames.deep_view());
        }
        let ghost net_done = out.deep_view();
        let dnames = crate::rollup::d_collect_names(&self.disk_s);
        let dcols = disk_vars();
        let mut r_k: usize = 0;
        proof {
            assert(dnames.deep_view().take(0) =~= Seq::<Seq<char>>::empty());
            assert(net_done + spec_cross_vars("disk"@, dnames.deep_view().take(0), spec_disk_vars())
                =~= net_done);
        }
        while r_k < dnames.len()
            invariant
                r_k <= dnames@.len(),
                dnames@.len() == dnames.deep_view().len(),
                dnames.deep_view() == d_names(self@.disk_s),
                dcols.deep_view() == spec_disk_vars(),
                dcols@.len() == spec_disk_vars().len(),
                out.deep_view() == net_done + spec_cross_vars(
                    "disk"@,
                    dnames.deep_view().take(r_k as int),
                    spec_disk_vars(),
                ),
            decreases dnames@.len() - r_k,
        {
            let ghost nm = dnames.deep_view()[r_k as int];
            let ghost block = spec_disk_vars().map_values(
                |c: Seq<char>| AlertVarV { cat: "disk"@, var: c, resrc: nm },
            );
            let ghost pre_block = out.deep_view();
            let mut j: usize = 0;
            proof {
                assert(pre_block + block.take(0) =~= pre_block);
            }
            while j < dcols.len()
                invariant
                    j <= dcols@.len(),
                    r_k < dnames@.len(),
                    dnames@.len() == dnames.deep_view().len(),
                    dcols.deep_view() == spec_disk_vars(),
                    dcols@.len() == spec_disk_vars().len(),
                    nm == dnames.deep_view()[r_k as int],
                    block == spec_disk_vars().map_values(
                        |c: Seq<char>| AlertVarV { cat: "disk"@, var: c, resrc: nm },
                    ),
                    out.deep_view() == pre_block + block.take(j as int),
                decreases dcols@.len() - j,
            {
                let v = AlertVar {
                    cat: "disk".to_owned(),
                    var: dcols[j].clone(),
                    resrc: dnames[r_k].clone(),
                };
                let ghost outpre = out.deep_view();
                out.push(v);
                proof {
                    assert(dcols@[j as int]@ == spec_disk_vars()[j as int]);
                    assert(dnames@[r_k as int]@ == nm);
                    assert(out.deep_view() =~= outpre.push(block[j as int]));
                    assert(outpre.push(block[j as int]) =~= pre_block + block.take(j + 1));
                }
                j += 1;
            }
            proof {
                assert(block.take(j as int) =~= block);
                assert(dnames.deep_view().take(r_k + 1).drop_last() =~= dnames.deep_view().take(
                    r_k as int,
                ));
                assert(dnames.deep_view().take(r_k + 1).last() == nm);
            }
            r_k += 1;
        }
        proof {
            assert(dnames.deep_view().take(r_k as int) =~= dnames.deep_view());
        }
        let ghost disk_done = out.deep_view();
        let scols = sys_vars();
        let ghost sblock = spec_sys_vars().map_values(
            |c: Seq<char>| AlertVarV { cat: "sys"@, var: c, resrc: "sys"@ },
        );
        let mut j: usize = 0;
        proof {
            assert(disk_done + sblock.take(0) =~= disk_done);
        }
        while j < scols.len()
            invariant
                j <= scols@.len(),
                scols.deep_view() == spec_sys_vars(),
                scols@.len() == spec_sys_vars().len(),
                sblock == spec_sys_vars().map_values(
                    |c: Seq<char>| AlertVarV { cat: "sys"@, var: c, resrc: "sys"@ },
                ),
                out.deep_view() == disk_done + sblock.take(j as int),
            decreases scols@.len() - j,
        {
            let v = AlertVar {
                cat: "sys".to_owned(),
                var: scols[j].clone(),
                resrc: "sys".to_owned(),
            };
            let ghost outpre = out.deep_view();
            out.push(v);
            proof {
                assert(scols@[j as int]@ == spec_sys_vars()[j as int]);
                assert(out.deep_view() =~= outpre.push(sblock[j as int]));
                assert(outpre.push(sblock[j as int]) =~= disk_done + sblock.take(j + 1));
            }
            j += 1;
        }
        proof {
            assert(sblock.take(j as int) =~= sblock);
            assert(out.deep_view() =~= spec_resource_list(self@));
        }
        out
    }
}

} // verus!
