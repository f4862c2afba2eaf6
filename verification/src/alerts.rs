//! The alert evaluator and the alert/notification-method lists: a single
//! MIN or MAX aggregate over the alert's window decides whether the
//! condition holds for the whole window, and only edge transitions change
//! the persisted state and dispatch notifications.

use vstd::prelude::*;

use crate::model::{Alert, AlertView, NotificationMethod, NotificationMethodV};
use crate::render::{format_alert_message, spec_alert_message};
use crate::rollup::{lemma_filter_push, max_u64};
use crate::store::{
    disk_at, general_at, net_at, DiskRowV, GeneralRow, NetRowV, Resolution, Store, StoreModel,
};
use crate::text::eq_str;

verus! {

/// Why an alert could not be evaluated; the evaluator skips such an alert
/// and leaves its state unchanged.
#[derive(Debug, Clone, Copy, PartialEq, Eq, Structural)]
pub enum AlertError {
    UnknownOperator,
    UnknownCategory,
    UnknownVariable,
}

/// The minimum of a sequence of machine integers; `u64::MAX` for the empty
/// sequence.
pub open spec fn min_u64(s: Seq<u64>) -> u64
    decreases s.len(),
{
    if s.len() == 0 {
        0xffff_ffff_ffff_ffffu64
    } else if s.last() < min_u64(s.drop_last()) {
        s.last()
    } else {
        min_u64(s.drop_last())
    }
}

pub proof fn lemma_min_push(s: Seq<u64>, x: u64)
    ensures
        min_u64(s.push(x)) == if x < min_u64(s) {
            x
        } else {
            min_u64(s)
        },
{
    assert(s.push(x).drop_last() =~= s);
}

/// The minimum of a nonempty sequence is one of its elements, and no
/// element is below it.
pub proof fn lemma_min_properties(s: Seq<u64>)
    ensures
        forall|i: int| 0 <= i < s.len() ==> #[trigger] s[i] >= min_u64(s),
        s.len() > 0 ==> s.contains(min_u64(s)),
    decreases s.len(),
{
    if s.len() > 0 {
        lemma_min_properties(s.drop_last());
        assert(forall|i: int| 0 <= i < s.len() - 1 ==> #[trigger] s[i] == s.drop_last()[i]);
        if s.len() > 1 && min_u64(s) == min_u64(s.drop_last()) {
            let j = choose|j: int|
                0 <= j < s.drop_last().len() && s.drop_last()[j] == min_u64(s.drop_last());
            assert(s[j] == min_u64(s));
        }
    }
}

/// The column of a `general` row an alert variable reads; 0 for a name
/// outside the table.
pub open spec fn g_val(r: GeneralRow, var: Seq<char>) -> u64 {
    if var == "cpu_usage"@ {
        r.cpu_usage
    } else if var == "mem_usage"@ {
        r.mem_usage
    } else if var == "swap_usage"@ {
        r.swap_usage
    } else if var == "load_avg_1"@ {
        r.load_avg_1
    } else if var == "load_avg_5"@ {
        r.load_avg_5
    } else if var == "load_avg_15"@ {
        r.load_avg_15
    } else {
        0
    }
}

/// Whether a `general` table has a column of this name.
pub open spec fn g_has_var(var: Seq<char>) -> bool {
    var == "cpu_usage"@ || var == "mem_usage"@ || var == "swap_usage"@ || var == "load_avg_1"@
        || var == "load_avg_5"@ || var == "load_avg_15"@
}

/// The column of a `net` row an alert variable reads; 0 for a name outside
/// the table.
pub open spec fn n_val(r: NetRowV, var: Seq<char>) -> u64 {
    if var == "rx"@ {
        r.rx
    } else if var == "tx"@ {
        r.tx
    } else if var == "rx_rate"@ {
        r.rx_rate
    } else if var == "tx_rate"@ {
        r.tx_rate
    } else {
        0
    }
}

/// Whether a `net` table has a column of this name.
pub open spec fn n_has_var(var: Seq<char>) -> bool {
    var == "rx"@ || var == "tx"@ || var == "rx_rate"@ || var == "tx_rate"@
}

/// The column of a `disk` row an alert variable reads; 0 for a name outside
/// the table.
pub open spec fn d_val(r: DiskRowV, var: Seq<char>) -> u64 {
    if var == "total_read"@ {
        r.total_read
    } else if var == "total_write"@ {
        r.total_write
    } else if var == "read_rate"@ {
        r.read_rate
    } else if var == "write_rate"@ {
        r.write_rate
    } else if var == "disk_usage"@ {
        r.disk_usage
    } else {
        0
    }
}

/// Whether a `disk` table has a column of this name.
pub open spec fn d_has_var(var: Seq<char>) -> bool {
    var == "total_read"@ || var == "total_write"@ || var == "read_rate"@ || var == "write_rate"@
        || var == "disk_usage"@
}

/// The alert's window in seconds.
pub open spec fn spec_window_secs(a: AlertView) -> int {
    a.time_window * 60
}

/// The tier an alert window reads: minute rows up to a two-hour window,
/// hour rows beyond.
pub open spec fn spec_tier(window_secs: int) -> Resolution {
    if window_secs <= 7200 {
        Resolution::Minute
    } else {
        Resolution::Hour
    }
}

/// The values an alert's window query sees: the watched column of every row
/// of the chosen tier with `timestamp >= start`, filtered by resource for
/// `net` and `disk`.
pub open spec fn spec_alert_values(m: StoreModel, a: AlertView, now: int) -> Seq<u64> {
    let start = now - spec_window_secs(a);
    let tier = spec_tier(spec_window_secs(a));
    if a.var.cat == "sys"@ {
        general_at(m, tier).filter(|r: GeneralRow| r.timestamp >= start).map_values(
            |r: GeneralRow| g_val(r, a.var.var),
        )
    } else if a.var.cat == "net"@ {
        net_at(m, tier).filter(
            |r: NetRowV| r.timestamp >= start && r.name == a.var.resrc,
        ).map_values(|r: NetRowV| n_val(r, a.var.var))
    } else {
        disk_at(m, tier).filter(
            |r: DiskRowV| r.timestamp >= start && r.name == a.var.resrc,
        ).map_values(|r: DiskRowV| d_val(r, a.var.var))
    }
}

/// Whether an alert's condition holds over its whole window. The operator
/// must be `>` or `<` and the variable a column of the category's table,
/// else the matching error. `>` holds when the window's MIN exceeds the
/// threshold, `<` when the window's MAX falls below it — so the condition
/// holds for every row in the window; an empty window never fires.
pub open spec fn spec_check_alert(m: StoreModel, a: AlertView, now: int) -> Result<
    bool,
    AlertError,
> {
    if a.operator != ">"@ && a.operator != "<"@ {
        Err(AlertError::UnknownOperator)
    } else if a.var.cat != "sys"@ && a.var.cat != "net"@ && a.var.cat != "disk"@ {
        Err(AlertError::UnknownCategory)
    } else if (a.var.cat == "sys"@ && !g_has_var(a.var.var)) || (a.var.cat == "net"@ && !n_has_var(
        a.var.var,
    )) || (a.var.cat == "disk"@ && !d_has_var(a.var.var)) {
        Err(AlertError::UnknownVariable)
    } else {
        let vals = spec_alert_values(m, a, now);
        if vals.len() == 0 {
            Ok(false)
        } else if a.operator == ">"@ {
            Ok((min_u64(vals) as int) > a.threshold as int)
        } else {
            Ok((max_u64(vals) as int) < a.threshold as int)
        }
    }
}

/// The watched column of a `general` row.
pub fn general_value(r: &GeneralRow, var: &String) -> (v: u64)
    ensures
        v == g_val(*r, var@),
{
    if eq_str(var, "cpu_usage") {
        r.cpu_usage
    } else if eq_str(var, "mem_usage") {
        r.mem_usage
    } else if eq_str(var, "swap_usage") {
        r.swap_usage
    } else if eq_str(var, "load_avg_1") {
        r.load_avg_1
    } else if eq_str(var, "load_avg_5") {
        r.load_avg_5
    } else if eq_str(var, "load_avg_15") {
        r.load_avg_15
    } else {
        0
    }
}

/// The watched column of a `net` row.
pub fn net_value(r: &crate::store::NetRow, var: &String) -> (v: u64)
    ensures
        v == n_val(r@, var@),
{
    if eq_str(var, "rx") {
        r.rx
    } else if eq_str(var, "tx") {
        r.tx
    } else if eq_str(var, "rx_rate") {
        r.rx_rate
    } else if eq_str(var, "tx_rate") {
        r.tx_rate
    } else {
        0
    }
}

/// The watched column of a `disk` row.
pub fn disk_value(r: &crate::store::DiskRow, var: &String) -> (v: u64)
    ensures
        v == d_val(r@, var@),
{
    if eq_str(var, "total_read") {
        r.total_read
    } else if eq_str(var, "total_write") {
        r.total_write
    } else if eq_str(var, "read_rate") {
        r.read_rate
    } else if eq_str(var, "write_rate") {
        r.write_rate
    } else if eq_str(var, "disk_usage") {
        r.disk_usage
    } else {
        0
    }
}

/// The count, MIN and MAX of the watched column over the matching rows of
/// a `general` table.
fn sys_window_agg(tbl: &Vec<GeneralRow>, start: i128, var: &String) -> (r: (usize, u64, u64))
    ensures
        ({
            let vals = tbl@.filter(|row: GeneralRow| row.timestamp >= start as int).map_values(
                |row: GeneralRow| g_val(row, var@),
            );
            &&& r.0 == vals.len()
            &&& vals.len() > 0 ==> r.1 == min_u64(vals) && r.2 == max_u64(vals)
        }),
{
    let mut count: usize = 0;
    let mut mn: u64 = 0;
    let mut mx: u64 = 0;
    let mut i: usize = 0;
    proof {
        assert(tbl@.take(0) =~= Seq::<GeneralRow>::empty());
        reveal(Seq::filter);
    }
    while i < tbl.len()
        invariant
            i <= tbl@.len(),
            count <= i,
            ({
                let vals = tbl@.take(i as int).filter(
                    |row: GeneralRow| row.timestamp >= start as int,
                ).map_values(|row: GeneralRow| g_val(row, var@));
                &&& count == vals.len()
                &&& count > 0 ==> mn == min_u64(vals) && mx == max_u64(vals)
            }),
        decreases tbl@.len() - i,
    {
        let ghost fpre = tbl@.take(i as int).filter(|row: GeneralRow| row.timestamp >= start as int);
        let ghost vpre = fpre.map_values(|row: GeneralRow| g_val(row, var@));
        let row = tbl[i];
        proof {
            lemma_filter_push(
                tbl@.take(i as int),
                |row: GeneralRow| row.timestamp >= start as int,
                row,
            );
            assert(tbl@.take(i as int).push(row) =~= tbl@.take(i + 1));
            if row.timestamp as i128 >= start {
                assert(fpre.push(row).map_values(|r2: GeneralRow| g_val(r2, var@))
                    =~= vpre.push(g_val(row, var@)));
                lemma_min_push(vpre, g_val(row, var@));
                crate::rollup::lemma_max_push(vpre, g_val(row, var@));
            }
        }
        if row.timestamp as i128 >= start {
            let v = general_value(&row, var);
            if count == 0 {
                mn = v;
                mx = v;
            } else {
                if v < mn {
                    mn = v;
                }
                if v > mx {
                    mx = v;
                }
            }
            count += 1;
            proof {
                if vpre.len() == 0 {
                    assert(min_u64(vpre.push(g_val(row, var@))) == g_val(row, var@));
                    assert(max_u64(vpre.push(g_val(row, var@))) == g_val(row, var@));
                }
            }
        }
        i += 1;
    }
    proof {
        assert(tbl@.take(i as int) =~= tbl@);
    }
    (count, mn, mx)
}

/// The count, MIN and MAX of the watched column over the matching rows of
/// a `net` table, filtered by resource name.
fn net_window_agg(tbl: &Vec<crate::store::NetRow>, start: i128, var: &String, resrc: &String) -> (r:
    (usize, u64, u64))
    ensures
        ({
            let vals = tbl.deep_view().filter(
                |row: NetRowV| row.timestamp >= start as int && row.name == resrc@,
            ).map_values(|row: NetRowV| n_val(row, var@));
            &&& r.0 == vals.len()
            &&& vals.len() > 0 ==> r.1 == min_u64(vals) && r.2 == max_u64(vals)
        }),
{
    let mut count: usize = 0;
    let mut mn: u64 = 0;
    let mut mx: u64 = 0;
    let mut i: usize = 0;
    proof {
        assert(tbl.deep_view().take(0) =~= Seq::<NetRowV>::empty());
        reveal(Seq::filter);
    }
    while i < tbl.len()
        invariant
            i <= tbl@.len(),
            tbl@.len() == tbl.deep_view().len(),
            count <= i,
            ({
                let vals = tbl.deep_view().take(i as int).filter(
                    |row: NetRowV| row.timestamp >= start as int && row.name == resrc@,
                ).map_values(|row: NetRowV| n_val(row, var@));
                &&& count == vals.len()
                &&& count > 0 ==> mn == min_u64(vals) && mx == max_u64(vals)
            }),
        decreases tbl@.len() - i,
    {
        let ghost fpre = tbl.deep_view().take(i as int).filter(
            |row: NetRowV| row.timestamp >= start as int && row.name == resrc@,
        );
        let ghost vpre = fpre.map_values(|row: NetRowV| n_val(row, var@));
        let ghost rv = tbl.deep_view()[i as int];
        proof {
            lemma_filter_push(
                tbl.deep_view().take(i as int),
                |row: NetRowV| row.timestamp >= start as int && row.name == resrc@,
                rv,
            );
            assert(tbl.deep_view().take(i as int).push(rv) =~= tbl.deep_view().take(i + 1));
            if rv.timestamp >= start as int && rv.name == resrc@ {
                assert(fpre.push(rv).map_values(|r2: NetRowV| n_val(r2, var@)) =~= vpre.push(
                    n_val(rv, var@),
                ));
                lemma_min_push(vpre, n_val(rv, var@));
                crate::rollup::lemma_max_push(vpre, n_val(rv, var@));
            }
        }
        if tbl[i].timestamp as i128 >= start && tbl[i].name.eq(resrc) {
            let v = net_value(&tbl[i], var);
            if count == 0 {
                mn = v;
                mx = v;
            } else {
                if v < mn {
                    mn = v;
                }
                if v > mx {
                    mx = v;
                }
            }
            count += 1;
            proof {
                if vpre.len() == 0 {
                    assert(min_u64(vpre.push(n_val(rv, var@))) == n_val(rv, var@));
                    assert(max_u64(vpre.push(n_val(rv, var@))) == n_val(rv, var@));
                }
            }
        }
        i += 1;
    }
    proof {
        assert(tbl.deep_view().take(i as int) =~= tbl.deep_view());
    }
    (count, mn, mx)
}

/// The count, MIN and MAX of the watched column over the matching rows of
/// a `disk` table, filtered by resource name.
fn disk_window_agg(
    tbl: &Vec<crate::store::DiskRow>,
    start: i128,
    var: &String,
    resrc: &String,
) -> (r: (usize, u64, u64))
    ensures
        ({
            let vals = tbl.deep_view().filter(
                |row: DiskRowV| row.timestamp >= start as int && row.name == resrc@,
            ).map_values(|row: DiskRowV| d_val(row, var@));
            &&& r.0 == vals.len()
            &&& vals.len() > 0 ==> r.1 == min_u64(vals) && r.2 == max_u64(vals)
        }),
{
    let mut count: usize = 0;
    let mut mn: u64 = 0;
    let mut mx: u64 = 0;
    let mut i: usize = 0;
    proof {
        assert(tbl.deep_view().take(0) =~= Seq::<DiskRowV>::empty());
        reveal(Seq::filter);
    }
    while i < tbl.len()
        invariant
            i <= tbl@.len(),
            tbl@.len() == tbl.deep_view().len(),
            count <= i,
            ({
                let vals = tbl.deep_view().take(i as int).filter(
                    |row: DiskRowV| row.timestamp >= start as int && row.name == resrc@,
                ).map_values(|row: DiskRowV| d_val(row, var@));
                &&& count == vals.len()
                &&& count > 0 ==> mn == min_u64(vals) && mx == max_u64(vals)
            }),
        decreases tbl@.len() - i,
    {
        let ghost fpre = tbl.deep_view().take(i as int).filter(
            |row: DiskRowV| row.timestamp >= start as int && row.name == resrc@,
        );
        let ghost vpre = fpre.map_values(|row: DiskRowV| d_val(row, var@));
        let ghost rv = tbl.deep_view()[i as int];
        proof {
            lemma_filter_push(
                tbl.deep_view().take(i as int),
                |row: DiskRowV| row.timestamp >= start as int && row.name == resrc@,
                rv,
            );
            assert(tbl.deep_view().take(i as int).push(rv) =~= tbl.deep_view().take(i + 1));
            if rv.timestamp >= start as int && rv.name == resrc@ {
                assert(fpre.push(rv).map_values(|r2: DiskRowV| d_val(r2, var@)) =~= vpre.push(
                    d_val(rv, var@),
                ));
                lemma_min_push(vpre, d_val(rv, var@));
                crate::rollup::lemma_max_push(vpre, d_val(rv, var@));
            }
        }
        if tbl[i].timestamp as i128 >= start && tbl[i].name.eq(resrc) {
            let v = disk_value(&tbl[i], var);
            if count == 0 {
                mn = v;
                mx = v;
            } else {
                if v < mn {
                    mn = v;
                }
                if v > mx {
                    mx = v;
                }
            }
            count += 1;
            proof {
                if vpre.len() == 0 {
                    assert(min_u64(vpre.push(d_val(rv, var@))) == d_val(rv, var@));
                    assert(max_u64(vpre.push(d_val(rv, var@))) == d_val(rv, var@));
                }
            }
        }
        i += 1;
    }
    proof {
        assert(tbl.deep_view().take(i as int) =~= tbl.deep_view());
    }
    (count, mn, mx)
}

/// Evaluates one alert against the store at wall-clock `now`; see
/// [`spec_check_alert`] for the window-consistency rule and the errors.
pub fn check_alert_condition(store: &Store, alert: &Alert, now: i64) -> (r: Result<
    bool,
    AlertError,
>)
    ensures
        r == spec_check_alert(store@, alert@, now as int),
{
    let gt = eq_str(&alert.operator, ">");
    let lt = eq_str(&alert.operator, "<");
    if !gt && !lt {
        return Err(AlertError::UnknownOperator);
    }
    let is_sys = eq_str(&alert.var.cat, "sys");
    let is_net = eq_str(&alert.var.cat, "net");
    let is_disk = eq_str(&alert.var.cat, "disk");
    if !is_sys && !is_net && !is_disk {
        return Err(AlertError::UnknownCategory);
    }
    let wsecs: i128 = (alert.time_window as i128) * 60;
    let start: i128 = (now as i128) - wsecs;
    let tier = if wsecs <= 7200 {
        Resolution::Minute
    } else {
        Resolution::Hour
    };
    let (count, mn, mx) = if is_sys {
        let known = eq_str(&alert.var.var, "cpu_usage") || eq_str(&alert.var.var, "mem_usage")
            || eq_str(&alert.var.var, "swap_usage") || eq_str(&alert.var.var, "load_avg_1")
            || eq_str(&alert.var.var, "load_avg_5") || eq_str(&alert.var.var, "load_avg_15");
        if !known {
            return Err(AlertError::UnknownVariable);
        }
        sys_window_agg(store.general_table(tier), start, &alert.var.var)
    } else if is_net {
        let known = eq_str(&alert.var.var, "rx") || eq_str(&alert.var.var, "tx") || eq_str(
            &alert.var.var,
            "rx_rate",
        ) || eq_str(&alert.var.var, "tx_rate");
        if !known {
            return Err(AlertError::UnknownVariable);
        }
        net_window_agg(store.net_table(tier), start, &alert.var.var, &alert.var.resrc)
    } else {
        let known = eq_str(&alert.var.var, "total_read") || eq_str(&alert.var.var, "total_write")
            || eq_str(&alert.var.var, "read_rate") || eq_str(&alert.var.var, "write_rate")
            || eq_str(&alert.var.var, "disk_usage");
        if !known {
            return Err(AlertError::UnknownVariable);
        }
        disk_window_agg(store.disk_table(tier), start, &alert.var.var, &alert.var.resrc)
    };
    proof {
        reveal_strlit("sys");
        reveal_strlit("net");
        reveal_strlit("disk");
        assert(("sys"@)[0] != ("net"@)[0]);
        assert("sys"@ != "net"@);
        assert("sys"@.len() != "disk"@.len());
        assert("net"@.len() != "disk"@.len());
        assert("sys"@ != "disk"@ && "net"@ != "disk"@);
    }
    if count == 0 {
        Ok(false)
    } else if gt {
        Ok((mn as i128) > (alert.threshold as i128))
    } else {
        Ok((mx as i128) < (alert.threshold as i128))
    }
}

/// One notification to deliver: the target method's id and the rendered
/// message. The transport adapter resolves the id and sends.
#[derive(Debug)]
pub struct Dispatch {
    pub method_id: String,
    pub message: String,
}

pub ghost struct DispatchV {
    pub method_id: Seq<char>,
    pub message: Seq<char>,
}

impl View for Dispatch {
    type V = DispatchV;

    open spec fn view(&self) -> DispatchV {
        DispatchV { method_id: self.method_id@, message: self.message@ }
    }
}

impl DeepView for Dispatch {
    type V = DispatchV;

    open spec fn deep_view(&self) -> DispatchV {
        self.view()
    }
}

/// The notification method a stored id resolves to: the last entry with
/// that id, as an id stored twice is overridden by the later entry.
pub open spec fn spec_find_method(s: Seq<NotificationMethodV>, id: Seq<char>) -> Option<
    NotificationMethodV,
>
    decreases s.len(),
{
    if s.len() == 0 {
        None
    } else if s.last().id == id {
        Some(s.last())
    } else {
        spec_find_method(s.drop_last(), id)
    }
}

/// Whether a stored method id resolves to an enabled method.
pub open spec fn spec_method_enabled(s: Seq<NotificationMethodV>, id: Seq<char>) -> bool {
    match spec_find_method(s, id) {
        Some(m) => m.enabled,
        None => false,
    }
}

/// Whether a stored method id resolves to an enabled method.
fn method_enabled(methods: &Vec<NotificationMethod>, id: &String) -> (r: bool)
    ensures
        r == spec_method_enabled(methods.deep_view(), id@),
{
    let mut i: usize = methods.len();
    proof {
        assert(methods.deep_view().take(i as int) =~= methods.deep_view());
    }
    while i > 0
        invariant
            i <= methods@.len(),
            methods@.len() == methods.deep_view().len(),
            spec_find_method(methods.deep_view(), id@) == spec_find_method(
                methods.deep_view().take(i as int),
                id@,
            ),
        decreases i,
    {
        i -= 1;
        proof {
            assert(methods.deep_view().take(i + 1).last() == methods.deep_view()[i as int]);
            assert(methods.deep_view().take(i + 1).drop_last() =~= methods.deep_view().take(
                i as int,
            ));
        }
        if methods[i].id.eq(id) {
            return methods[i].enabled;
        }
    }
    proof {
        assert(methods.deep_view().take(0) =~= Seq::<NotificationMethodV>::empty());
    }
    false
}

/// What one evaluator pass does with one alert: a disabled alert and an
/// alert whose evaluation errs are untouched with nothing dispatched; an
/// unchanged outcome is untouched too; an edge stores the new firing state
/// and dispatches the rendered message once per configured method that
/// resolves to an enabled notification method.
pub open spec fn spec_tick_alert(
    m: StoreModel,
    a: AlertView,
    methods: Seq<NotificationMethodV>,
    now: int,
) -> (AlertView, Seq<DispatchV>) {
    if !a.enabled {
        (a, Seq::<DispatchV>::empty())
    } else {
        match spec_check_alert(m, a, now) {
            Err(_) => (a, Seq::<DispatchV>::empty()),
            Ok(f) => {
                if f == a.firing {
                    (a, Seq::<DispatchV>::empty())
                } else {
                    let a2 = AlertView { firing: f, ..a };
                    let msg = spec_alert_message(a2, f);
                    (
                        a2,
                        a.notif_methods.filter(|id: Seq<char>| spec_method_enabled(methods, id))
                            .map_values(|id: Seq<char>| DispatchV { method_id: id, message: msg }),
                    )
                }
            },
        }
    }
}

/// What one evaluator pass does with a list of alerts, in order; the
/// dispatches of all alerts are concatenated.
pub open spec fn spec_evaluator_tick(
    m: StoreModel,
    s: Seq<AlertView>,
    methods: Seq<NotificationMethodV>,
    now: int,
) -> (Seq<AlertView>, Seq<DispatchV>)
    decreases s.len(),
{
    if s.len() == 0 {
        (Seq::<AlertView>::empty(), Seq::<DispatchV>::empty())
    } else {
        let head = spec_tick_alert(m, s[0], methods, now);
        let rest = spec_evaluator_tick(m, s.drop_first(), methods, now);
        (seq![head.0] + rest.0, head.1 + rest.1)
    }
}

/// Evaluates one alert and renders its dispatches.
fn tick_alert(store: &Store, alert: Alert, methods: &Vec<NotificationMethod>, now: i64) -> (r: (
    Alert,
    Vec<Dispatch>,
))
    ensures
        (r.0@, r.1.deep_view()) == spec_tick_alert(store@, alert@, methods.deep_view(), now as int),
{
    let ghost a0 = alert@;
    if !alert.enabled {
        let out: Vec<Dispatch> = Vec::new();
        proof {
            assert(out.deep_view() =~= Seq::<DispatchV>::empty());
        }
        return (alert, out);
    }
    let f = match check_alert_condition(store, &alert, now) {
        Err(_) => {
            let out: Vec<Dispatch> = Vec::new();
            proof {
                assert(out.deep_view() =~= Seq::<DispatchV>::empty());
            }
            return (alert, out);
        },
        Ok(f) => f,
    };
    if f == alert.firing {
        let out: Vec<Dispatch> = Vec::new();
        proof {
            assert(out.deep_view() =~= Seq::<DispatchV>::empty());
        }
        return (alert, out);
    }
    let mut alert = alert;
    alert.firing = f;
    proof {
        assert(alert@ == (AlertView { firing: f, ..a0 }));
    }
    let msg = format_alert_message(&alert, f);
    let ghost expect = a0.notif_methods.filter(
        |id: Seq<char>| spec_method_enabled(methods.deep_view(), id),
    ).map_values(|id: Seq<char>| DispatchV { method_id: id, message: msg@ });
    let mut out: Vec<Dispatch> = Vec::new();
    let mut j: usize = 0;
    proof {
        assert(a0.notif_methods.take(0) =~= Seq::<Seq<char>>::empty());
        assert(out.deep_view() =~= a0.notif_methods.take(0).filter(
            |id: Seq<char>| spec_method_enabled(methods.deep_view(), id),
        ).map_values(|id: Seq<char>| DispatchV { method_id: id, message: msg@ }));
        reveal(Seq::filter);
    }
    while j < alert.notif_methods.len()
        invariant
            j <= alert.notif_methods@.len(),
            alert.notif_methods.deep_view() == a0.notif_methods,
            out.deep_view() == a0.notif_methods.take(j as int).filter(
                |id: Seq<char>| spec_method_enabled(methods.deep_view(), id),
            ).map_values(|id: Seq<char>| DispatchV { method_id: id, message: msg@ }),
        decreases alert.notif_methods@.len() - j,
    {
        let ghost idv = a0.notif_methods[j as int];
        proof {
            lemma_filter_push(
                a0.notif_methods.take(j as int),
                |id: Seq<char>| spec_method_enabled(methods.deep_view(), id),
                idv,
            );
            assert(a0.notif_methods.take(j as int).push(idv) =~= a0.notif_methods.take(j + 1));
        }
        if method_enabled(methods, &alert.notif_methods[j]) {
            let d = Dispatch { method_id: alert.notif_methods[j].clone(), message: msg.clone() };
            let ghost outpre = out.deep_view();
            out.push(d);
            proof {
                assert(out.deep_view() =~= outpre.push(DispatchV { method_id: idv, message: msg@ }));
                assert(out.deep_view() =~= a0.notif_methods.take(j + 1).filter(
                    |id: Seq<char>| spec_method_enabled(methods.deep_view(), id),
                ).map_values(|id: Seq<char>| DispatchV { method_id: id, message: msg@ }));
            }
        }
        j += 1;
    }
    proof {
        assert(a0.notif_methods.take(j as int) =~= a0.notif_methods);
        assert(out.deep_view() =~= expect);
    }
    (alert, out)
}

/// One evaluator pass over the whole alert list at wall-clock `now`:
/// returns the updated list and every notification to dispatch. Only edge
/// transitions change an alert or dispatch anything; evaluation errors and
/// empty windows leave the alert as it was.
pub fn evaluator_tick(
    store: &Store,
    alerts: Vec<Alert>,
    methods: &Vec<NotificationMethod>,
    now: i64,
) -> (r: (Vec<Alert>, Vec<Dispatch>))
    ensures
        ({
            let expect = spec_evaluator_tick(
                store@,
                alerts.deep_view(),
                methods.deep_view(),
                now as int,
            );
            r.0.deep_view() == expect.0 && r.1.deep_view() == expect.1
        }),
{
    let ghost orig = alerts.deep_view();
    let ghost expect = spec_evaluator_tick(store@, orig, methods.deep_view(), now as int);
    let mut src = alerts;
    let mut out_alerts: Vec<Alert> = Vec::new();
    let mut out_disp: Vec<Dispatch> = Vec::new();
    let ghost mut i: int = 0;
    proof {
        assert(orig.skip(0) =~= orig);
        assert(out_alerts.deep_view() =~= Seq::<AlertView>::empty());
        assert(out_disp.deep_view() =~= Seq::<DispatchV>::empty());
        assert(Seq::<AlertView>::empty() + spec_evaluator_tick(
            store@,
            orig,
            methods.deep_view(),
            now as int,
        ).0 =~= expect.0);
        assert(Seq::<DispatchV>::empty() + spec_evaluator_tick(
            store@,
            orig,
            methods.deep_view(),
            now as int,
        ).1 =~= expect.1);
    }
    while src.len() > 0
        invariant
            0 <= i <= orig.len(),
            src.deep_view() == orig.skip(i),
            expect == spec_evaluator_tick(store@, orig, methods.deep_view(), now as int),
            expect.0 == out_alerts.deep_view() + spec_evaluator_tick(
                store@,
                orig.skip(i),
                methods.deep_view(),
                now as int,
            ).0,
            expect.1 == out_disp.deep_view() + spec_evaluator_tick(
                store@,
                orig.skip(i),
                methods.deep_view(),
                now as int,
            ).1,
        decreases src@.len(),
    {
        let a = src.remove(0);
        proof {
            assert(a@ == orig.skip(i)[0]);
            assert(src.deep_view() =~= orig.skip(i).drop_first());
            assert(orig.skip(i).drop_first() =~= orig.skip(i + 1));
        }
        let ghost head = spec_tick_alert(store@, orig.skip(i)[0], methods.deep_view(), now as int);
        let ghost rest = spec_evaluator_tick(
            store@,
            orig.skip(i + 1),
            methods.deep_view(),
            now as int,
        );
        let (a2, mut ds) = tick_alert(store, a, methods, now);
        let ghost apre = out_alerts.deep_view();
        let ghost dpre = out_disp.deep_view();
        out_alerts.push(a2);
        out_disp.append(&mut ds);
        proof {
            assert(out_alerts.deep_view() =~= apre.push(head.0));
            assert(out_disp.deep_view() =~= dpre + head.1);
            assert(apre + (seq![head.0] + rest.0) =~= apre.push(head.0) + rest.0);
            assert(dpre + (head.1 + rest.1) =~= (dpre + head.1) + rest.1);
            i = i + 1;
        }
    }
    proof {
        assert(orig.skip(i) =~= Seq::<AlertView>::empty());
        assert(out_alerts.deep_view() + Seq::<AlertView>::empty() =~= out_alerts.deep_view());
        assert(out_disp.deep_view() + Seq::<DispatchV>::empty() =~= out_disp.deep_view());
    }
    (out_alerts, out_disp)
}

/// A fresh identifier for a stored alert or notification method.
/// Relies on `uuid::Uuid::new_v4` and its `Display` impl: a version-4 UUID
/// rendered in the hyphenated lowercase form, which is 36 characters.
#[verifier::external_body]
fn new_id() -> (r: String)
    ensures
        r@.len() == 36,
{
    uuid::Uuid::new_v4().to_string()
}

/// The alert list without the entries carrying the given id.
fn retain_other_alerts(alerts: Vec<Alert>, id: &String) -> (r: Vec<Alert>)
    ensures
        r.deep_view() == alerts.deep_view().filter(|a: AlertView| a.id != id@),
{
    let ghost orig = alerts.deep_view();
    let mut src = alerts;
    let mut out: Vec<Alert> = Vec::new();
    let ghost mut i: int = 0;
    proof {
        assert(orig.take(0) =~= Seq::<AlertView>::empty());
        assert(out.deep_view() =~= orig.take(0).filter(|a: AlertView| a.id != id@));
        reveal(Seq::filter);
    }
    while src.len() > 0
        invariant
            0 <= i <= orig.len(),
            src.deep_view() == orig.skip(i),
            out.deep_view() == orig.take(i).filter(|a: AlertView| a.id != id@),
        decreases src@.len(),
    {
        let a = src.remove(0);
        proof {
            assert(src.deep_view().len() < orig.skip(i).len());
            assert(i < orig.len());
            assert(a@ == orig.skip(i)[0]);
            assert(orig.skip(i)[0] == orig[i]);
            assert(src.deep_view() =~= orig.skip(i).drop_first());
            assert(orig.skip(i).drop_first() =~= orig.skip(i + 1));
            lemma_filter_push(orig.take(i), |a2: AlertView| a2.id != id@, orig[i]);
            assert(orig.take(i).push(orig[i]) =~= orig.take(i + 1));
        }
        if !a.id.eq(id) {
            let ghost outpre = out.deep_view();
            out.push(a);
            proof {
                assert(out.deep_view() =~= outpre.push(orig[i]));
            }
        }
        proof {
            i = i + 1;
        }
    }
    proof {
        assert(orig.take(i) =~= orig);
    }
    out
}

/// The method list without the entries carrying the given id.
fn retain_other_methods(methods: Vec<NotificationMethod>, id: &String) -> (r: Vec<
    NotificationMethod,
>)
    ensures
        r.deep_view() == methods.deep_view().filter(|m: NotificationMethodV| m.id != id@),
{
    let ghost orig = methods.deep_view();
    let mut src = methods;
    let mut out: Vec<NotificationMethod> = Vec::new();
    let ghost mut i: int = 0;
    proof {
        assert(orig.take(0) =~= Seq::<NotificationMethodV>::empty());
        assert(out.deep_view() =~= orig.take(0).filter(|m: NotificationMethodV| m.id != id@));
        reveal(Seq::filter);
    }
    while src.len() > 0
        invariant
            0 <= i <= orig.len(),
            src.deep_view() == orig.skip(i),
            out.deep_view() == orig.take(i).filter(|m: NotificationMethodV| m.id != id@),
        decreases src@.len(),
    {
        let m = src.remove(0);
        proof {
            assert(src.deep_view().len() < orig.skip(i).len());
            assert(i < orig.len());
            assert(m@ == orig.skip(i)[0]);
            assert(orig.skip(i)[0] == orig[i]);
            assert(src.deep_view() =~= orig.skip(i).drop_first());
            assert(orig.skip(i).drop_first() =~= orig.skip(i + 1));
            lemma_filter_push(orig.take(i), |m2: NotificationMethodV| m2.id != id@, orig[i]);
            assert(orig.take(i).push(orig[i]) =~= orig.take(i + 1));
        }
        if !m.id.eq(id) {
            let ghost outpre = out.deep_view();
            out.push(m);
            proof {
                assert(out.deep_view() =~= outpre.push(orig[i]));
            }
        }
        proof {
            i = i + 1;
        }
    }
    proof {
        assert(orig.take(i) =~= orig);
    }
    out
}

/// Stores an alert: with id `-1` a fresh 36-character id is assigned and
/// the alert appended; otherwise every entry with the same id is replaced.
/// The stored alert always starts not firing.
pub fn upsert_alert(alerts: Vec<Alert>, alert: Alert) -> (r: Vec<Alert>)
    ensures
        (alert@.id == "-1"@ ==> {
            &&& r.deep_view().len() == alerts.deep_view().len() + 1
            &&& r.deep_view().take(alerts.deep_view().len() as int) == alerts.deep_view()
            &&& r.deep_view().last() == (AlertView {
                id: r.deep_view().last().id,
                firing: false,
                ..alert@
            })
            &&& r.deep_view().last().id.len() == 36
            &&& r.deep_view().last().id != "-1"@
        }),
        (alert@.id != "-1"@ ==> r.deep_view() == alerts.deep_view().filter(
            |a: AlertView| a.id != alert@.id,
        ).push(AlertView { firing: false, ..alert@ })),
{
    let mut alert = alert;
    alert.firing = false;
    if eq_str(&alert.id, "-1") {
        let fresh = new_id();
        proof {
            reveal_strlit("-1");
            assert(fresh@.len() != "-1"@.len());
        }
        alert.id = fresh;
        let ghost av = alert@;
        let mut out = alerts;
        let ghost base = out.deep_view();
        out.push(alert);
        proof {
            assert(out.deep_view() =~= base.push(av));
            assert(out.deep_view().take(base.len() as int) =~= base);
        }
        out
    } else {
        let ghost av = alert@;
        let mut out = retain_other_alerts(alerts, &alert.id);
        let ghost base = out.deep_view();
        out.push(alert);
        proof {
            assert(out.deep_view() =~= base.push(av));
        }
        out
    }
}

/// Deletes every alert carrying the given id.
pub fn delete_alert(alerts: Vec<Alert>, id: &String) -> (r: Vec<Alert>)
    ensures
        r.deep_view() == alerts.deep_view().filter(|a: AlertView| a.id != id@),
{
    retain_other_alerts(alerts, id)
}

/// Stores a notification method: with id `-1` a fresh 36-character id is
/// assigned and the method appended; otherwise every entry with the same id
/// is replaced.
pub fn upsert_notification_method(
    methods: Vec<NotificationMethod>,
    method: NotificationMethod,
) -> (r: Vec<NotificationMethod>)
    ensures
        (method@.id == "-1"@ ==> {
            &&& r.deep_view().len() == methods.deep_view().len() + 1
            &&& r.deep_view().take(methods.deep_view().len() as int) == methods.deep_view()
            &&& r.deep_view().last() == (NotificationMethodV {
                id: r.deep_view().last().id,
                ..method@
            })
            &&& r.deep_view().last().id.len() == 36
            &&& r.deep_view().last().id != "-1"@
        }),
        (method@.id != "-1"@ ==> r.deep_view() == methods.deep_view().filter(
            |m: NotificationMethodV| m.id != method@.id,
        ).push(method@)),
{
    let mut method = method;
    if eq_str(&method.id, "-1") {
        let fresh = new_id();
        proof {
            reveal_strlit("-1");
            assert(fresh@.len() != "-1"@.len());
        }
        method.id = fresh;
        let ghost mv = method@;
        let mut out = methods;
        let ghost base = out.deep_view();
        out.push(method);
        proof {
            assert(out.deep_view() =~= base.push(mv));
            assert(out.deep_view().take(base.len() as int) =~= base);
        }
        out
    } else {
        let ghost mv = method@;
        let mut out = retain_other_methods(methods, &method.id);
        let ghost base = out.deep_view();
        out.push(method);
        proof {
            assert(out.deep_view() =~= base.push(mv));
        }
        out
    }
}

/// Deletes every notification method carrying the given id.
pub fn delete_notification_method(methods: Vec<NotificationMethod>, id: &String) -> (r: Vec<
    NotificationMethod,
>)
    ensures
        r.deep_view() == methods.deep_view().filter(|m: NotificationMethodV| m.id != id@),
{
    retain_other_methods(methods, id)
}

/// The alert list with the first entry of the given id set to the new
/// firing state.
pub open spec fn spec_set_firing(s: Seq<AlertView>, id: Seq<char>, firing: bool) -> Seq<AlertView>
    decreases s.len(),
{
    if s.len() == 0 {
        Seq::<AlertView>::empty()
    } else if s[0].id == id {
        seq![AlertView { firing, ..s[0] }] + s.drop_first()
    } else {
        seq![s[0]] + spec_set_firing(s.drop_first(), id, firing)
    }
}

/// Persists one alert's new firing state into the list: the first entry
/// with the given id is updated, the rest are untouched.
pub fn update_alert_state(alerts: Vec<Alert>, id: &String, firing: bool) -> (r: Vec<Alert>)
    ensures
        r.deep_view() == spec_set_firing(alerts.deep_view(), id@, firing),
{
    let ghost orig = alerts.deep_view();
    let ghost expect = spec_set_firing(orig, id@, firing);
    let mut src = alerts;
    let mut out: Vec<Alert> = Vec::new();
    let mut done = false;
    let ghost mut i: int = 0;
    proof {
        assert(orig.skip(0) =~= orig);
        assert(Seq::<AlertView>::empty() + spec_set_firing(orig, id@, firing) =~= expect);
    }
    while src.len() > 0
        invariant
            0 <= i <= orig.len(),
            src.deep_view() == orig.skip(i),
            expect == spec_set_firing(orig, id@, firing),
            !done ==> expect == out.deep_view() + spec_set_firing(orig.skip(i), id@, firing),
            done ==> expect == out.deep_view() + orig.skip(i),
        decreases src@.len(),
    {
        let mut a = src.remove(0);
        proof {
            assert(a@ == orig.skip(i)[0]);
            assert(src.deep_view() =~= orig.skip(i).drop_first());
            assert(orig.skip(i).drop_first() =~= orig.skip(i + 1));
        }
        let ghost av = a@;
        let ghost outpre = out.deep_view();
        if !done && a.id.eq(id) {
            a.firing = firing;
            done = true;
            out.push(a);
            proof {
                assert(out.deep_view() =~= outpre.push(AlertView { firing, ..av }));
                assert(outpre + (seq![AlertView { firing, ..av }] + orig.skip(i + 1))
                    =~= outpre.push(AlertView { firing, ..av }) + orig.skip(i + 1));
            }
        } else {
            out.push(a);
            proof {
                assert(out.deep_view() =~= outpre.push(av));
                if done {
                    assert(orig.skip(i) =~= seq![av] + orig.skip(i + 1));
                    assert(outpre + (seq![av] + orig.skip(i + 1)) =~= outpre.push(av) + orig.skip(
                        i + 1,
                    ));
                } else {
                    assert(outpre + (seq![av] + spec_set_firing(orig.skip(i + 1), id@, firing))
                        =~= outpre.push(av) + spec_set_firing(orig.skip(i + 1), id@, firing));
                }
            }
        }
        proof {
            i = i + 1;
        }
    }
    proof {
        assert(orig.skip(i) =~= Seq::<AlertView>::empty());
        if !done {
            assert(out.deep_view() + spec_set_firing(orig.skip(i), id@, firing) =~= out.deep_view());
        } else {
            assert(out.deep_view() + orig.skip(i) =~= out.deep_view());
        }
    }
    out
}

} // verus!
