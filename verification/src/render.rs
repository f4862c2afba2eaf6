//! Notification message rendering: friendly metric names, units, and the
//! exact texts dispatched when an alert fires or comes back to normal.

use vstd::prelude::*;

use crate::catalog::spec_friendly_name;
use crate::catalog::get_var_friendly_name;
use crate::model::{Alert, AlertView};
use crate::num::{lemma_round_div_le_num, round_div, round_mean_u64};
use crate::text::{
    centi_to_fixed2, centi_to_string, eq_str, i64_to_string, spec_centi_decimal, spec_centi_fixed2,
    spec_decimal_i64,
};

verus! {

/// How a rate threshold prints: scaled by powers of 1024 into the unit
/// bucket `floor(log1024(v))` clamped to `B/s ..= GiB/s`, with two decimal
/// places; a non-positive value prints as `0.00 B/s`.
pub open spec fn spec_bytes_per_sec(v: int) -> Seq<char> {
    if v <= 0 {
        "0.00 B/s"@
    } else if v < 1024 {
        spec_centi_fixed2(100 * v) + " B/s"@
    } else if v < 1048576 {
        spec_centi_fixed2(round_div(100 * v, 1024)) + " KiB/s"@
    } else if v < 1073741824 {
        spec_centi_fixed2(round_div(100 * v, 1048576)) + " MiB/s"@
    } else {
        spec_centi_fixed2(round_div(100 * v, 1073741824)) + " GiB/s"@
    }
}

/// Renders a rate in bytes per second with a binary-scaled unit.
pub fn format_bytes_per_sec(v: i64) -> (r: String)
    ensures
        r@ == spec_bytes_per_sec(v as int),
{
    if v <= 0 {
        return "0.00 B/s".to_owned();
    }
    let (scaled, unit): (u64, &'static str) = if v < 1024 {
        ((100 * v) as u64, " B/s")
    } else if v < 1048576 {
        (round_mean_u64((100 * (v as u128)) as u128, 1024), " KiB/s")
    } else if v < 1073741824 {
        (round_mean_u64((100 * (v as u128)) as u128, 1048576), " MiB/s")
    } else {
        proof {
            assert(100 * (v as int) <= 1073741824 * 0xffff_ffff_ffff_ffff) by (nonlinear_arith)
                requires
                    v <= 0x7fff_ffff_ffff_ffff,
            ;
        }
        (round_mean_u64((100 * (v as u128)) as u128, 1073741824), " GiB/s")
    };
    proof {
        lemma_round_div_le_num(100 * (v as int), 1024);
        lemma_round_div_le_num(100 * (v as int), 1048576);
        lemma_round_div_le_num(100 * (v as int), 1073741824);
    }
    let mut s = centi_to_fixed2(scaled);
    s.append(unit);
    s
}

/// Whether a column renders its threshold as a percentage.
pub open spec fn spec_is_pct_var(var: Seq<char>) -> bool {
    var == "cpu_usage"@ || var == "mem_usage"@ || var == "swap_usage"@ || var == "disk_usage"@
}

/// Whether a column renders its threshold as a bare load number.
pub open spec fn spec_is_load_var(var: Seq<char>) -> bool {
    var == "load_avg_1"@ || var == "load_avg_5"@ || var == "load_avg_15"@
}

/// Whether a column renders its threshold as a binary-scaled rate.
pub open spec fn spec_is_rate_unit(cat: Seq<char>, var: Seq<char>) -> bool {
    (cat == "net"@ && (var == "rx_rate"@ || var == "tx_rate"@)) || (cat == "disk"@ && (var
        == "read_rate"@ || var == "write_rate"@))
}

/// The rendered threshold (with its unit) and the verb a message uses.
/// Percentage columns carry `%`, rate columns a binary-scaled unit, load
/// averages none; a pair outside the catalogue falls back to the raw
/// stored value with `exceeded`, `is below` or `equals` by operator.
pub open spec fn spec_value_and_verb(a: AlertView) -> (Seq<char>, Seq<char>) {
    let gt = a.operator == ">"@;
    let lt = a.operator == "<"@;
    if spec_is_pct_var(a.var.var) && (gt || lt) {
        (
            spec_centi_decimal(a.threshold as int) + "%"@,
            if gt {
                "exceeded"@
            } else {
                "dropped below"@
            },
        )
    } else if spec_is_load_var(a.var.var) && (gt || lt) {
        (
            spec_centi_decimal(a.threshold as int),
            if gt {
                "exceeded"@
            } else {
                "dropped below"@
            },
        )
    } else if spec_is_rate_unit(a.var.cat, a.var.var) && (gt || lt) {
        (
            spec_bytes_per_sec(a.threshold as int),
            if gt {
                "exceeded"@
            } else {
                "dropped below"@
            },
        )
    } else if gt {
        (spec_decimal_i64(a.threshold as int), "exceeded"@)
    } else if lt {
        (spec_decimal_i64(a.threshold as int), "is below"@)
    } else {
        (spec_decimal_i64(a.threshold as int), "equals"@)
    }
}

/// The resource tag of a message: ` (<resrc>)` for `net` and `disk`
/// alerts, nothing for `sys`.
pub open spec fn spec_resource_tag(a: AlertView) -> Seq<char> {
    if a.var.cat != "sys"@ {
        " ("@ + a.var.resrc + ")"@
    } else {
        Seq::<char>::empty()
    }
}

/// The full message dispatched on an edge: the firing form names the
/// metric, the verb, the threshold and the window; the relief form says the
/// metric no longer crosses the threshold.
pub open spec fn spec_alert_message(a: AlertView, is_firing: bool) -> Seq<char> {
    let name = spec_friendly_name(a.var.cat, a.var.var);
    let tag = spec_resource_tag(a);
    let vv = spec_value_and_verb(a);
    if is_firing {
        "ALERT: "@ + name + tag + " "@ + vv.1 + " "@ + vv.0 + " (sustained for "@
            + spec_decimal_i64(a.time_window as int) + " min)"@
    } else {
        "RESOLVED: "@ + name + tag + " no longer "@ + vv.1 + " "@ + vv.0 + " (back to normal)"@
    }
}

/// Renders the rendered-threshold / verb pair of an alert.
fn value_and_verb(alert: &Alert) -> (r: (String, String))
    ensures
        (r.0@, r.1@) == spec_value_and_verb(alert@),
{
    let gt = eq_str(&alert.operator, ">");
    let lt = eq_str(&alert.operator, "<");
    let is_pct = eq_str(&alert.var.var, "cpu_usage") || eq_str(&alert.var.var, "mem_usage")
        || eq_str(&alert.var.var, "swap_usage") || eq_str(&alert.var.var, "disk_usage");
    let is_load = eq_str(&alert.var.var, "load_avg_1") || eq_str(&alert.var.var, "load_avg_5")
        || eq_str(&alert.var.var, "load_avg_15");
    let is_rate = (eq_str(&alert.var.cat, "net") && (eq_str(&alert.var.var, "rx_rate") || eq_str(
        &alert.var.var,
        "tx_rate",
    ))) || (eq_str(&alert.var.cat, "disk") && (eq_str(&alert.var.var, "read_rate") || eq_str(
        &alert.var.var,
        "write_rate",
    )));
    let verb: String = if gt {
        "exceeded".to_owned()
    } else if lt {
        if is_pct || is_load || is_rate {
            "dropped below".to_owned()
        } else {
            "is below".to_owned()
        }
    } else {
        "equals".to_owned()
    };
    if is_pct && (gt || lt) {
        let mut s = centi_to_string(alert.threshold);
        s.append("%");
        proof {
            assert(s@ =~= spec_centi_decimal(alert.threshold as int) + "%"@);
        }
        (s, verb)
    } else if is_load && (gt || lt) {
        (centi_to_string(alert.threshold), verb)
    } else if is_rate && (gt || lt) {
        (format_bytes_per_sec(alert.threshold), verb)
    } else {
        (i64_to_string(alert.threshold), verb)
    }
}

/// Renders the message dispatched for an alert edge: the firing form when
/// `is_firing`, the relief form otherwise.
pub fn format_alert_message(alert: &Alert, is_firing: bool) -> (r: String)
    ensures
        r@ == spec_alert_message(alert@, is_firing),
{
    let name = get_var_friendly_name(&alert.var);
    let (value, verb) = value_and_verb(alert);
    let not_sys = !eq_str(&alert.var.cat, "sys");
    let mut s: String = if is_firing {
        "ALERT: ".to_owned()
    } else {
        "RESOLVED: ".to_owned()
    };
    s.append(name.as_str());
    if not_sys {
        s.append(" (");
        s.append(alert.var.resrc.as_str());
        s.append(")");
    }
    if is_firing {
        s.append(" ");
    } else {
        s.append(" no longer ");
    }
    s.append(verb.as_str());
    s.append(" ");
    s.append(value.as_str());
    if is_firing {
        s.append(" (sustained for ");
        let tw = i64_to_string(alert.time_window);
        s.append(tw.as_str());
        s.append(" min)");
    } else {
        s.append(" (back to normal)");
    }
    proof {
        if not_sys {
            assert(spec_resource_tag(alert@) == " ("@ + alert@.var.resrc + ")"@);
        } else {
            assert(spec_resource_tag(alert@) =~= Seq::<char>::empty());
        }
        assert(s@ =~= spec_alert_message(alert@, is_firing));
    }
    s
}

} // verus!
