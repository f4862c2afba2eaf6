//! The fixed metric catalogue: three categories with their column sets,
//! the alert variables they offer, and the friendly names used when a
//! notification message is rendered.

use vstd::prelude::*;

use crate::model::AlertVar;
use crate::text::eq_str;

verus! {

/// The gauge columns of the `sys` category, in table order.
pub open spec fn spec_sys_vars() -> Seq<Seq<char>> {
    seq!["cpu_usage"@, "mem_usage"@, "swap_usage"@, "load_avg_1"@, "load_avg_5"@, "load_avg_15"@]
}

/// The alertable columns of the `net` category, in table order.
pub open spec fn spec_net_vars() -> Seq<Seq<char>> {
    seq!["rx_rate"@, "tx_rate"@]
}

/// The alertable columns of the `disk` category, in table order.
pub open spec fn spec_disk_vars() -> Seq<Seq<char>> {
    seq!["read_rate"@, "write_rate"@, "disk_usage"@]
}

/// The gauge columns of the `sys` category.
pub fn sys_vars() -> (r: Vec<String>)
    ensures
        r.deep_view() == spec_sys_vars(),
{
    let mut v: Vec<String> = Vec::new();
    v.push("cpu_usage".to_owned());
    v.push("mem_usage".to_owned());
    v.push("swap_usage".to_owned());
    v.push("load_avg_1".to_owned());
    v.push("load_avg_5".to_owned());
    v.push("load_avg_15".to_owned());
    proof {
        assert(v.deep_view() =~~= spec_sys_vars());
    }
    v
}

/// The alertable columns of the `net` category.
pub fn net_vars() -> (r: Vec<String>)
    ensures
        r.deep_view() == spec_net_vars(),
{
    let mut v: Vec<String> = Vec::new();
    v.push("rx_rate".to_owned());
    v.push("tx_rate".to_owned());
    proof {
        assert(v.deep_view() =~~= spec_net_vars());
    }
    v
}

/// The alertable columns of the `disk` category.
pub fn disk_vars() -> (r: Vec<String>)
    ensures
        r.deep_view() == spec_disk_vars(),
{
    let mut v: Vec<String> = Vec::new();
    v.push("read_rate".to_owned());
    v.push("write_rate".to_owned());
    v.push("disk_usage".to_owned());
    proof {
        assert(v.deep_view() =~~= spec_disk_vars());
    }
    v
}

/// Whether a column holds a rate in whole bytes per second (as opposed to a
/// percentage or load average held in hundredths). Adapters use this to pick
/// the scale when converting thresholds and query results.
pub open spec fn spec_is_rate_var(var: Seq<char>) -> bool {
    var == "rx_rate"@ || var == "tx_rate"@ || var == "read_rate"@ || var == "write_rate"@
}

/// Whether a column holds a rate in whole bytes per second.
pub fn var_is_rate(var: &String) -> (r: bool)
    ensures
        r == spec_is_rate_var(var@),
{
    eq_str(var, "rx_rate") || eq_str(var, "tx_rate") || eq_str(var, "read_rate") || eq_str(
        var,
        "write_rate",
    )
}

/// The friendly name a rendered message uses for a watched metric; an
/// unknown pair falls back to `"<cat> <var>"`.
pub open spec fn spec_friendly_name(cat: Seq<char>, var: Seq<char>) -> Seq<char> {
    if cat == "sys"@ && var == "cpu_usage"@ {
        "CPU Usage"@
    } else if cat == "sys"@ && var == "mem_usage"@ {
        "Memory Usage"@
    } else if cat == "sys"@ && var == "swap_usage"@ {
        "Swap Usage"@
    } else if cat == "sys"@ && var == "load_avg_1"@ {
        "1 Min Load Average"@
    } else if cat == "sys"@ && var == "load_avg_5"@ {
        "5 Min Load Average"@
    } else if cat == "sys"@ && var == "load_avg_15"@ {
        "15 Min Load Average"@
    } else if cat == "net"@ && var == "rx_rate"@ {
        "Network Receive Rate"@
    } else if cat == "net"@ && var == "tx_rate"@ {
        "Network Transmit Rate"@
    } else if cat == "disk"@ && var == "read_rate"@ {
        "Disk Read Rate"@
    } else if cat == "disk"@ && var == "write_rate"@ {
        "Disk Write Rate"@
    } else if cat == "disk"@ && var == "disk_usage"@ {
        "Disk Usage"@
    } else {
        cat + " "@ + var
    }
}

/// The friendly name a rendered message uses for a watched metric.
pub fn get_var_friendly_name(var: &AlertVar) -> (r: String)
    ensures
        r@ == spec_friendly_name(var.cat@, var.var@),
{
    let is_sys = eq_str(&var.cat, "sys");
    let is_net = eq_str(&var.cat, "net");
    let is_disk = eq_str(&var.cat, "disk");
    if is_sys && eq_str(&var.var, "cpu_usage") {
        return "CPU Usage".to_owned();
    }
    if is_sys && eq_str(&var.var, "mem_usage") {
        return "Memory Usage".to_owned();
    }
    if is_sys && eq_str(&var.var, "swap_usage") {
        return "Swap Usage".to_owned();
    }
    if is_sys && eq_str(&var.var, "load_avg_1") {
        return "1 Min Load Average".to_owned();
    }
    if is_sys && eq_str(&var.var, "load_avg_5") {
        return "5 Min Load Average".to_owned();
    }
    if is_sys && eq_str(&var.var, "load_avg_15") {
        return "15 Min Load Average".to_owned();
    }
    if is_net && eq_str(&var.var, "rx_rate") {
        return "Network Receive Rate".to_owned();
    }
    if is_net && eq_str(&var.var, "tx_rate") {
        return "Network Transmit Rate".to_owned();
    }
    if is_disk && eq_str(&var.var, "read_rate") {
        return "Disk Read Rate".to_owned();
    }
    if is_disk && eq_str(&var.var, "write_rate") {
        return "Disk Write Rate".to_owned();
    }
    if is_disk && eq_str(&var.var, "disk_usage") {
        return "Disk Usage".to_owned();
    }
    let mut s = var.cat.clone();
    s.append(" ");
    s.append(var.var.as_str());
    proof {
        assert(s@ =~= var.cat@ + " "@ + var.var@);
    }
    s
}

} // verus!
