//! Window aggregation: the mathematical definition of a roll-up row (MAX
//! for cumulative counters, rounded mean for gauges) and the executable
//! functions that compute roll-up rows from a source table.

use vstd::prelude::*;

use crate::num::{round_div, round_mean_u64};
use crate::store::{DiskRow, DiskRowV, GeneralRow, NetRow, NetRowV};

verus! {

/// The sum of a sequence of machine integers, as a mathematical integer.
pub open spec fn sum_u64(s: Seq<u64>) -> int
    decreases s.len(),
{
    if s.len() == 0 {
        0
    } else {
        sum_u64(s.drop_last()) + s.last()
    }
}

/// The maximum of a sequence of machine integers; 0 for the empty sequence.
pub open spec fn max_u64(s: Seq<u64>) -> u64
    decreases s.len(),
{
    if s.len() == 0 {
        0
    } else if s.last() > max_u64(s.drop_last()) {
        s.last()
    } else {
        max_u64(s.drop_last())
    }
}

pub proof fn lemma_sum_push(s: Seq<u64>, x: u64)
    ensures
        sum_u64(s.push(x)) == sum_u64(s) + x,
{
    assert(s.push(x).drop_last() =~= s);
}

pub proof fn lemma_max_push(s: Seq<u64>, x: u64)
    ensures
        max_u64(s.push(x)) == if x > max_u64(s) {
            x
        } else {
            max_u64(s)
        },
{
    assert(s.push(x).drop_last() =~= s);
}

/// Any pointwise bounds on a sequence bound its sum by `len` times each bound.
pub proof fn lemma_sum_bounds(s: Seq<u64>, lo: u64, hi: u64)
    requires
        forall|i: int| 0 <= i < s.len() ==> lo <= #[trigger] s[i] <= hi,
    ensures
        s.len() * lo <= sum_u64(s) <= s.len() * hi,
    decreases s.len(),
{
    if s.len() > 0 {
        lemma_sum_bounds(s.drop_last(), lo, hi);
        assert((s.len() - 1) * lo + lo == s.len() * lo) by (nonlinear_arith);
        assert((s.len() - 1) * hi + hi == s.len() * hi) by (nonlinear_arith);
    }
}

/// The maximum of a nonempty sequence is one of its elements, and no
/// element exceeds it.
pub proof fn lemma_max_properties(s: Seq<u64>)
    ensures
        forall|i: int| 0 <= i < s.len() ==> #[trigger] s[i] <= max_u64(s),
        s.len() > 0 ==> s.contains(max_u64(s)),
    decreases s.len(),
{
    if s.len() > 0 {
        lemma_max_properties(s.drop_last());
        assert(forall|i: int| 0 <= i < s.len() - 1 ==> #[trigger] s[i] == s.drop_last()[i]);
        if s.len() > 1 && max_u64(s) == max_u64(s.drop_last()) {
            let j = choose|j: int|
                0 <= j < s.drop_last().len() && s.drop_last()[j] == max_u64(s.drop_last());
            assert(s[j] == max_u64(s));
        }
    }
}

/// The rows of a table whose timestamp lies in the closed window `[lo, hi]`.
pub open spec fn g_window(s: Seq<GeneralRow>, lo: int, hi: int) -> Seq<GeneralRow> {
    s.filter(|r: GeneralRow| lo <= r.timestamp <= hi)
}

/// The rows of a table whose timestamp lies in the closed window `[lo, hi]`.
pub open spec fn n_window(s: Seq<NetRowV>, lo: int, hi: int) -> Seq<NetRowV> {
    s.filter(|r: NetRowV| lo <= r.timestamp <= hi)
}

/// The rows of a table whose timestamp lies in the closed window `[lo, hi]`.
pub open spec fn d_window(s: Seq<DiskRowV>, lo: int, hi: int) -> Seq<DiskRowV> {
    s.filter(|r: DiskRowV| lo <= r.timestamp <= hi)
}

/// Appending an element to a sequence extends its filtered image by that
/// element exactly when the element satisfies the predicate.
pub proof fn lemma_filter_push<A>(s: Seq<A>, pred: spec_fn(A) -> bool, x: A)
    ensures
        s.push(x).filter(pred) == if pred(x) {
            s.filter(pred).push(x)
        } else {
            s.filter(pred)
        },
{
    reveal(Seq::filter);
    assert(s.push(x).drop_last() =~= s);
    assert(s.push(x).last() == x);
}

/// The aggregate of a window of `general` rows, stamped `stamp`: every
/// gauge column is the rounded mean over the window.
pub open spec fn g_agg_row(win: Seq<GeneralRow>, stamp: i64) -> GeneralRow {
    let n = win.len() as int;
    GeneralRow {
        timestamp: stamp,
        cpu_usage: round_div(sum_u64(win.map_values(|r: GeneralRow| r.cpu_usage)), n) as u64,
        mem_usage: round_div(sum_u64(win.map_values(|r: GeneralRow| r.mem_usage)), n) as u64,
        swap_usage: round_div(sum_u64(win.map_values(|r: GeneralRow| r.swap_usage)), n) as u64,
        load_avg_1: round_div(sum_u64(win.map_values(|r: GeneralRow| r.load_avg_1)), n) as u64,
        load_avg_5: round_div(sum_u64(win.map_values(|r: GeneralRow| r.load_avg_5)), n) as u64,
        load_avg_15: round_div(sum_u64(win.map_values(|r: GeneralRow| r.load_avg_15)), n) as u64,
    }
}

/// What a roll-up appends to a `general` target table: one aggregate row,
/// or nothing when the window holds no source rows.
pub open spec fn g_roll(src: Seq<GeneralRow>, lo: int, hi: int, stamp: i64) -> Seq<GeneralRow> {
    let win = g_window(src, lo, hi);
    if win.len() == 0 {
        Seq::<GeneralRow>::empty()
    } else {
        seq![g_agg_row(win, stamp)]
    }
}

/// Computes the roll-up row of a `general` table over `[lo, hi]`.
pub fn roll_up_general(src: &Vec<GeneralRow>, lo: i64, hi: i64, stamp: i64) -> (r: Option<
    GeneralRow,
>)
    ensures
        g_roll(src@, lo as int, hi as int, stamp) == (match r {
            Some(row) => seq![row],
            None => Seq::<GeneralRow>::empty(),
        }),
{
    let ghost win = g_window(src@, lo as int, hi as int);
    let mut count: u64 = 0;
    let mut s_cpu: u128 = 0;
    let mut s_mem: u128 = 0;
    let mut s_swap: u128 = 0;
    let mut s_l1: u128 = 0;
    let mut s_l5: u128 = 0;
    let mut s_l15: u128 = 0;
    let mut i: usize = 0;
    proof {
        assert(src@.take(0) =~= Seq::<GeneralRow>::empty());
        reveal(Seq::filter);
    }
    while i < src.len()
        invariant
            i <= src@.len(),
            count <= i,
            ({
                let w = g_window(src@.take(i as int), lo as int, hi as int);
                &&& count == w.len()
                &&& s_cpu == sum_u64(w.map_values(|r: GeneralRow| r.cpu_usage))
                &&& s_mem == sum_u64(w.map_values(|r: GeneralRow| r.mem_usage))
                &&& s_swap == sum_u64(w.map_values(|r: GeneralRow| r.swap_usage))
                &&& s_l1 == sum_u64(w.map_values(|r: GeneralRow| r.load_avg_1))
                &&& s_l5 == sum_u64(w.map_values(|r: GeneralRow| r.load_avg_5))
                &&& s_l15 == sum_u64(w.map_values(|r: GeneralRow| r.load_avg_15))
                &&& s_cpu <= count * 0xffff_ffff_ffff_ffffu128
                &&& s_mem <= count * 0xffff_ffff_ffff_ffffu128
                &&& s_swap <= count * 0xffff_ffff_ffff_ffffu128
                &&& s_l1 <= count * 0xffff_ffff_ffff_ffffu128
                &&& s_l5 <= count * 0xffff_ffff_ffff_ffffu128
                &&& s_l15 <= count * 0xffff_ffff_ffff_ffffu128
            }),
        decreases src@.len() - i,
    {
        let ghost wpre = g_window(src@.take(i as int), lo as int, hi as int);
        let row = src[i];
        proof {
            assert(src@.take(i + 1).drop_last() =~= src@.take(i as int));
            lemma_filter_push(
                src@.take(i as int),
                |r: GeneralRow| lo as int <= r.timestamp <= hi as int,
                row,
            );
            assert(src@.take(i as int).push(row) =~= src@.take(i + 1));
            if lo <= row.timestamp && row.timestamp <= hi {
                lemma_sum_push(wpre.map_values(|r: GeneralRow| r.cpu_usage), row.cpu_usage);
                lemma_sum_push(wpre.map_values(|r: GeneralRow| r.mem_usage), row.mem_usage);
                lemma_sum_push(wpre.map_values(|r: GeneralRow| r.swap_usage), row.swap_usage);
                lemma_sum_push(wpre.map_values(|r: GeneralRow| r.load_avg_1), row.load_avg_1);
                lemma_sum_push(wpre.map_values(|r: GeneralRow| r.load_avg_5), row.load_avg_5);
                lemma_sum_push(wpre.map_values(|r: GeneralRow| r.load_avg_15), row.load_avg_15);
                assert(wpre.push(row).map_values(|r: GeneralRow| r.cpu_usage) =~= wpre.map_values(
                    |r: GeneralRow| r.cpu_usage,
                ).push(row.cpu_usage));
                assert(wpre.push(row).map_values(|r: GeneralRow| r.mem_usage) =~= wpre.map_values(
                    |r: GeneralRow| r.mem_usage,
                ).push(row.mem_usage));
                assert(wpre.push(row).map_values(|r: GeneralRow| r.swap_usage) =~= wpre.map_values(
                    |r: GeneralRow| r.swap_usage,
                ).push(row.swap_usage));
                assert(wpre.push(row).map_values(|r: GeneralRow| r.load_avg_1) =~= wpre.map_values(
                    |r: GeneralRow| r.load_avg_1,
                ).push(row.load_avg_1));
                assert(wpre.push(row).map_values(|r: GeneralRow| r.load_avg_5) =~= wpre.map_values(
                    |r: GeneralRow| r.load_avg_5,
                ).push(row.load_avg_5));
                assert(wpre.push(row).map_values(|r: GeneralRow| r.load_avg_15)
                    =~= wpre.map_values(|r: GeneralRow| r.load_avg_15).push(row.load_avg_15));
            }
        }
        if lo <= row.timestamp && row.timestamp <= hi {
            count = count + 1;
            s_cpu = s_cpu + row.cpu_usage as u128;
            s_mem = s_mem + row.mem_usage as u128;
            s_swap = s_swap + row.swap_usage as u128;
            s_l1 = s_l1 + row.load_avg_1 as u128;
            s_l5 = s_l5 + row.load_avg_5 as u128;
            s_l15 = s_l15 + row.load_avg_15 as u128;
        }
        i += 1;
    }
    proof {
        assert(src@.take(i as int) =~= src@);
    }
    if count == 0 {
        return None;
    }
    let row = GeneralRow {
        timestamp: stamp,
        cpu_usage: round_mean_u64(s_cpu, count),
        mem_usage: round_mean_u64(s_mem, count),
        swap_usage: round_mean_u64(s_swap, count),
        load_avg_1: round_mean_u64(s_l1, count),
        load_avg_5: round_mean_u64(s_l5, count),
        load_avg_15: round_mean_u64(s_l15, count),
    };
    proof {
        assert(row == g_agg_row(win, stamp));
        assert(g_roll(src@, lo as int, hi as int, stamp) =~= seq![row]);
    }
    Some(row)
}

/// The distinct `name` values of a table, in order of first appearance.
pub open spec fn n_names(s: Seq<NetRowV>) -> Seq<Seq<char>>
    decreases s.len(),
{
    if s.len() == 0 {
        Seq::<Seq<char>>::empty()
    } else {
        let p = n_names(s.drop_last());
        if p.contains(s.last().name) {
            p
        } else {
            p.push(s.last().name)
        }
    }
}

/// The rows of a table that belong to one resource.
pub open spec fn n_group(s: Seq<NetRowV>, name: Seq<char>) -> Seq<NetRowV> {
    s.filter(|r: NetRowV| r.name == name)
}

/// The aggregate of one resource's rows over a window, stamped `stamp`:
/// cumulative counters take the MAX, rates the rounded mean.
pub open spec fn n_agg_row(win: Seq<NetRowV>, name: Seq<char>, stamp: i64) -> NetRowV {
    let g = n_group(win, name);
    let n = g.len() as int;
    NetRowV {
        timestamp: stamp,
        name: name,
        rx: max_u64(g.map_values(|r: NetRowV| r.rx)),
        tx: max_u64(g.map_values(|r: NetRowV| r.tx)),
        rx_rate: round_div(sum_u64(g.map_values(|r: NetRowV| r.rx_rate)), n) as u64,
        tx_rate: round_div(sum_u64(g.map_values(|r: NetRowV| r.tx_rate)), n) as u64,
    }
}

/// What a roll-up appends to a `net` target table: one aggregate row per
/// resource seen in the window, in order of first appearance.
pub open spec fn n_roll(src: Seq<NetRowV>, lo: int, hi: int, stamp: i64) -> Seq<NetRowV> {
    let win = n_window(src, lo, hi);
    n_names(win).map_values(|nm: Seq<char>| n_agg_row(win, nm, stamp))
}

pub proof fn lemma_n_names_push(s: Seq<NetRowV>, x: NetRowV)
    ensures
        n_names(s.push(x)) == if n_names(s).contains(x.name) {
            n_names(s)
        } else {
            n_names(s).push(x.name)
        },
{
    assert(s.push(x).drop_last() =~= s);
}

/// Every name listed for a window has at least one row in its group.
pub proof fn lemma_n_group_nonempty(s: Seq<NetRowV>, nm: Seq<char>)
    requires
        n_names(s).contains(nm),
    ensures
        n_group(s, nm).len() > 0,
    decreases s.len(),
{
    reveal(Seq::filter);
    if s.len() > 0 {
        let p = n_names(s.drop_last());
        if s.last().name == nm {
            assert(n_group(s, nm) == n_group(s.drop_last(), nm).push(s.last()));
        } else {
            if !p.contains(nm) {
                let q = n_names(s);
                let j = choose|j: int| 0 <= j < q.len() && q[j] == nm;
                assert(q == p.push(s.last().name));
                assert(j == q.len() - 1 || p[j] == nm);
                assert(false);
            }
            lemma_n_group_nonempty(s.drop_last(), nm);
            assert(n_group(s, nm) == n_group(s.drop_last(), nm));
        }
    }
}

/// Whether some string of `names` has the given view.
fn contains_name(names: &Vec<String>, name: &String) -> (r: bool)
    ensures
        r == names.deep_view().contains(name@),
{
    let n = names.len();
    let mut i: usize = 0;
    while i < n
        invariant
            n == names@.len(),
            i <= n,
            forall|j: int| 0 <= j < i ==> names.deep_view()[j] != name@,
        decreases n - i,
    {
        if names[i].eq(name) {
            proof {
                assert(names.deep_view()[i as int] == name@);
            }
            return true;
        }
        i += 1;
    }
    false
}

/// The rows of a `net` table inside the closed window.
fn n_window_vec(src: &Vec<NetRow>, lo: i64, hi: i64) -> (r: Vec<NetRow>)
    ensures
        r.deep_view() == n_window(src.deep_view(), lo as int, hi as int),
{
    let mut out: Vec<NetRow> = Vec::new();
    let mut i: usize = 0;
    proof {
        assert(src.deep_view().take(0) =~= Seq::<NetRowV>::empty());
        reveal(Seq::filter);
    }
    while i < src.len()
        invariant
            i <= src@.len(),
            src@.len() == src.deep_view().len(),
            out.deep_view() == n_window(src.deep_view().take(i as int), lo as int, hi as int),
        decreases src@.len() - i,
    {
        proof {
            lemma_filter_push(
                src.deep_view().take(i as int),
                |r: NetRowV| lo as int <= r.timestamp <= hi as int,
                src.deep_view()[i as int],
            );
            assert(src.deep_view().take(i as int).push(src.deep_view()[i as int])
                =~= src.deep_view().take(i + 1));
        }
        if lo <= src[i].timestamp && src[i].timestamp <= hi {
            let row = src[i].duplicate();
            out.push(row);
            proof {
                assert(out.deep_view() =~= n_window(
                    src.deep_view().take(i + 1),
                    lo as int,
                    hi as int,
                ));
            }
        }
        i += 1;
    }
    proof {
        assert(src.deep_view().take(i as int) =~= src.deep_view());
    }
    out
}

/// The distinct resource names of a window, in order of first appearance.
pub(crate) fn n_collect_names(win: &Vec<NetRow>) -> (r: Vec<String>)
    ensures
        r.deep_view() == n_names(win.deep_view()),
{
    let mut out: Vec<String> = Vec::new();
    let mut i: usize = 0;
    proof {
        assert(win.deep_view().take(0) =~= Seq::<NetRowV>::empty());
        assert(n_names(win.deep_view().take(0)) =~= Seq::<Seq<char>>::empty());
    }
    while i < win.len()
        invariant
            i <= win@.len(),
            win@.len() == win.deep_view().len(),
            out.deep_view() == n_names(win.deep_view().take(i as int)),
        decreases win@.len() - i,
    {
        proof {
            lemma_n_names_push(win.deep_view().take(i as int), win.deep_view()[i as int]);
            assert(win.deep_view().take(i as int).push(win.deep_view()[i as int])
                =~= win.deep_view().take(i + 1));
        }
        if !contains_name(&out, &win[i].name) {
            let nm = win[i].name.clone();
            out.push(nm);
            proof {
                assert(out.deep_view() =~= n_names(win.deep_view().take(i + 1)));
            }
        }
        i += 1;
    }
    proof {
        assert(win.deep_view().take(i as int) =~= win.deep_view());
    }
    out
}

/// The aggregate row of one resource over a window of `net` rows.
fn n_group_agg(win: &Vec<NetRow>, name: &String, stamp: i64) -> (r: NetRow)
    requires
        n_group(win.deep_view(), name@).len() > 0,
    ensures
        r@ == n_agg_row(win.deep_view(), name@, stamp),
{
    let mut count: u64 = 0;
    let mut m_rx: u64 = 0;
    let mut m_tx: u64 = 0;
    let mut s_rx: u128 = 0;
    let mut s_tx: u128 = 0;
    let mut i: usize = 0;
    proof {
        assert(win.deep_view().take(0) =~= Seq::<NetRowV>::empty());
        reveal(Seq::filter);
    }
    while i < win.len()
        invariant
            i <= win@.len(),
            win@.len() == win.deep_view().len(),
            count <= i,
            ({
                let g = n_group(win.deep_view().take(i as int), name@);
                &&& count == g.len()
                &&& m_rx == max_u64(g.map_values(|r: NetRowV| r.rx))
                &&& m_tx == max_u64(g.map_values(|r: NetRowV| r.tx))
                &&& s_rx == sum_u64(g.map_values(|r: NetRowV| r.rx_rate))
                &&& s_tx == sum_u64(g.map_values(|r: NetRowV| r.tx_rate))
                &&& s_rx <= count * 0xffff_ffff_ffff_ffffu128
                &&& s_tx <= count * 0xffff_ffff_ffff_ffffu128
            }),
        decreases win@.len() - i,
    {
        let ghost gpre = n_group(win.deep_view().take(i as int), name@);
        let ghost rv = win.deep_view()[i as int];
        proof {
            lemma_filter_push(
                win.deep_view().take(i as int),
                |r: NetRowV| r.name == name@,
                rv,
            );
            assert(win.deep_view().take(i as int).push(rv) =~= win.deep_view().take(i + 1));
            if rv.name == name@ {
                lemma_max_push(gpre.map_values(|r: NetRowV| r.rx), rv.rx);
                lemma_max_push(gpre.map_values(|r: NetRowV| r.tx), rv.tx);
                lemma_sum_push(gpre.map_values(|r: NetRowV| r.rx_rate), rv.rx_rate);
                lemma_sum_push(gpre.map_values(|r: NetRowV| r.tx_rate), rv.tx_rate);
                assert(gpre.push(rv).map_values(|r: NetRowV| r.rx) =~= gpre.map_values(
                    |r: NetRowV| r.rx,
                ).push(rv.rx));
                assert(gpre.push(rv).map_values(|r: NetRowV| r.tx) =~= gpre.map_values(
                    |r: NetRowV| r.tx,
                ).push(rv.tx));
                assert(gpre.push(rv).map_values(|r: NetRowV| r.rx_rate) =~= gpre.map_values(
                    |r: NetRowV| r.rx_rate,
                ).push(rv.rx_rate));
                assert(gpre.push(rv).map_values(|r: NetRowV| r.tx_rate) =~= gpre.map_values(
                    |r: NetRowV| r.tx_rate,
                ).push(rv.tx_rate));
            }
        }
        if win[i].name.eq(name) {
            count = count + 1;
            if win[i].rx > m_rx {
                m_rx = win[i].rx;
            }
            if win[i].tx > m_tx {
                m_tx = win[i].tx;
            }
            s_rx = s_rx + win[i].rx_rate as u128;
            s_tx = s_tx + win[i].tx_rate as u128;
        }
        i += 1;
    }
    proof {
        assert(win.deep_view().take(i as int) =~= win.deep_view());
    }
    let name_copy = name.clone();
    NetRow {
        timestamp: stamp,
        name: name_copy,
        rx: m_rx,
        tx: m_tx,
        rx_rate: round_mean_u64(s_rx, count),
        tx_rate: round_mean_u64(s_tx, count),
    }
}

/// Computes the roll-up rows of a `net` table over `[lo, hi]`: one row per
/// resource seen in the window, in order of first appearance.
pub fn roll_up_net(src: &Vec<NetRow>, lo: i64, hi: i64, stamp: i64) -> (r: Vec<NetRow>)
    ensures
        r.deep_view() == n_roll(src.deep_view(), lo as int, hi as int, stamp),
{
    let ghost winv = n_window(src.deep_view(), lo as int, hi as int);
    let ghost expect = n_roll(src.deep_view(), lo as int, hi as int, stamp);
    let win = n_window_vec(src, lo, hi);
    let names = n_collect_names(&win);
    let mut out: Vec<NetRow> = Vec::new();
    let mut k: usize = 0;
    proof {
        assert(out.deep_view() =~= expect.take(0));
    }
    while k < names.len()
        invariant
            k <= names@.len(),
            names@.len() == names.deep_view().len(),
            win.deep_view() == winv,
            names.deep_view() == n_names(winv),
            expect == n_roll(src.deep_view(), lo as int, hi as int, stamp),
            expect == n_names(winv).map_values(|nm: Seq<char>| n_agg_row(winv, nm, stamp)),
            out.deep_view() == expect.take(k as int),
        decreases names@.len() - k,
    {
        proof {
            assert(names.deep_view()[k as int] == n_names(winv)[k as int]);
            assert(n_names(winv).contains(n_names(winv)[k as int]));
            lemma_n_group_nonempty(winv, names.deep_view()[k as int]);
        }
        let row = n_group_agg(&win, &names[k], stamp);
        let ghost outpre = out.deep_view();
        let ghost rowv = row@;
        out.push(row);
        proof {
            assert(names@[k as int]@ == names.deep_view()[k as int]);
            assert(expect[k as int] == n_agg_row(winv, n_names(winv)[k as int], stamp));
            assert(rowv == expect[k as int]);
            assert(out.deep_view() =~= outpre.push(rowv));
            assert(out.deep_view() =~= expect.take(k + 1));
        }
        k += 1;
    }
    proof {
        assert(expect.take(k as int) =~= expect);
    }
    out
}

/// The distinct `name` values of a `disk` table, in order of first appearance.
pub open spec fn d_names(s: Seq<DiskRowV>) -> Seq<Seq<char>>
    decreases s.len(),
{
    if s.len() == 0 {
        Seq::<Seq<char>>::empty()
    } else {
        let p = d_names(s.drop_last());
        if p.contains(s.last().name) {
            p
        } else {
            p.push(s.last().name)
        }
    }
}

/// The rows of a `disk` table that belong to one mount.
pub open spec fn d_group(s: Seq<DiskRowV>, name: Seq<char>) -> Seq<DiskRowV> {
    s.filter(|r: DiskRowV| r.name == name)
}

/// The aggregate of one mount's rows over a window, stamped `stamp`:
/// cumulative counters take the MAX, rates and the usage percentage the
/// rounded mean.
pub open spec fn d_agg_row(win: Seq<DiskRowV>, name: Seq<char>, stamp: i64) -> DiskRowV {
    let g = d_group(win, name);
    let n = g.len() as int;
    DiskRowV {
        timestamp: stamp,
        name: name,
        total_read: max_u64(g.map_values(|r: DiskRowV| r.total_read)),
        total_write: max_u64(g.map_values(|r: DiskRowV| r.total_write)),
        read_rate: round_div(sum_u64(g.map_values(|r: DiskRowV| r.read_rate)), n) as u64,
        write_rate: round_div(sum_u64(g.map_values(|r: DiskRowV| r.write_rate)), n) as u64,
        disk_usage: round_div(sum_u64(g.map_values(|r: DiskRowV| r.disk_usage)), n) as u64,
    }
}

/// What a roll-up appends to a `disk` target table: one aggregate row per
/// mount seen in the window, in order of first appearance.
pub open spec fn d_roll(src: Seq<DiskRowV>, lo: int, hi: int, stamp: i64) -> Seq<DiskRowV> {
    let win = d_window(src, lo, hi);
    d_names(win).map_values(|nm: Seq<char>| d_agg_row(win, nm, stamp))
}

pub proof fn lemma_d_names_push(s: Seq<DiskRowV>, x: DiskRowV)
    ensures
        d_names(s.push(x)) == if d_names(s).contains(x.name) {
            d_names(s)
        } else {
            d_names(s).push(x.name)
        },
{
    assert(s.push(x).drop_last() =~= s);
}

/// Every name listed for a window has at least one row in its group.
pub proof fn lemma_d_group_nonempty(s: Seq<DiskRowV>, nm: Seq<char>)
    requires
        d_names(s).contains(nm),
    ensures
        d_group(s, nm).len() > 0,
    decreases s.len(),
{
    reveal(Seq::filter);
    if s.len() > 0 {
        let p = d_names(s.drop_last());
        if s.last().name == nm {
            assert(d_group(s, nm) == d_group(s.drop_last(), nm).push(s.last()));
        } else {
            if !p.contains(nm) {
                let q = d_names(s);
                let j = choose|j: int| 0 <= j < q.len() && q[j] == nm;
                assert(q == p.push(s.last().name));
                assert(j == q.len() - 1 || p[j] == nm);
                assert(false);
            }
            lemma_d_group_nonempty(s.drop_last(), nm);
            assert(d_group(s, nm) == d_group(s.drop_last(), nm));
        }
    }
}

/// The rows of a `disk` table inside the closed window.
fn d_window_vec(src: &Vec<DiskRow>, lo: i64, hi: i64) -> (r: Vec<DiskRow>)
    ensures
        r.deep_view() == d_window(src.deep_view(), lo as int, hi as int),
{
    let mut out: Vec<DiskRow> = Vec::new();
    let mut i: usize = 0;
    proof {
        assert(src.deep_view().take(0) =~= Seq::<DiskRowV>::empty());
        reveal(Seq::filter);
    }
    while i < src.len()
        invariant
            i <= src@.len(),
            src@.len() == src.deep_view().len(),
            out.deep_view() == d_window(src.deep_view().take(i as int), lo as int, hi as int),
        decreases src@.len() - i,
    {
        proof {
            lemma_filter_push(
                src.deep_view().take(i as int),
                |r: DiskRowV| lo as int <= r.timestamp <= hi as int,
                src.deep_view()[i as int],
            );
            assert(src.deep_view().take(i as int).push(src.deep_view()[i as int])
                =~= src.deep_view().take(i + 1));
        }
        if lo <= src[i].timestamp && src[i].timestamp <= hi {
            let row = src[i].duplicate();
            out.push(row);
            proof {
                assert(out.deep_view() =~= d_window(
                    src.deep_view().take(i + 1),
                    lo as int,
                    hi as int,
                ));
            }
        }
        i += 1;
    }
    proof {
        assert(src.deep_view().take(i as int) =~= src.deep_view());
    }
    out
}

/// The distinct mount names of a window, in order of first appearance.
pub(crate) fn d_collect_names(win: &Vec<DiskRow>) -> (r: Vec<String>)
    ensures
        r.deep_view() == d_names(win.deep_view()),
{
    let mut out: Vec<String> = Vec::new();
    let mut i: usize = 0;
    proof {
        assert(win.deep_view().take(0) =~= Seq::<DiskRowV>::empty());
        assert(d_names(win.deep_view().take(0)) =~= Seq::<Seq<char>>::empty());
    }
    while i < win.len()
        invariant
            i <= win@.len(),
            win@.len() == win.deep_view().len(),
            out.deep_view() == d_names(win.deep_view().take(i as int)),
        decreases win@.len() - i,
    {
        proof {
            lemma_d_names_push(win.deep_view().take(i as int), win.deep_view()[i as int]);
            assert(win.deep_view().take(i as int).push(win.deep_view()[i as int])
                =~= win.deep_view().take(i + 1));
        }
        if !contains_name(&out, &win[i].name) {
            let nm = win[i].name.clone();
            out.push(nm);
            proof {
                assert(out.deep_view() =~= d_names(win.deep_view().take(i + 1)));
            }
        }
        i += 1;
    }
    proof {
        assert(win.deep_view().take(i as int) =~= win.deep_view());
    }
    out
}

/// The aggregate row of one mount over a window of `disk` rows.
fn d_group_agg(win: &Vec<DiskRow>, name: &String, stamp: i64) -> (r: DiskRow)
    requires
        d_group(win.deep_view(), name@).len() > 0,
    ensures
        r@ == d_agg_row(win.deep_view(), name@, stamp),
{
    let mut count: u64 = 0;
    let mut m_read: u64 = 0;
    let mut m_write: u64 = 0;
    let mut s_read: u128 = 0;
    let mut s_write: u128 = 0;
    let mut s_usage: u128 = 0;
    let mut i: usize = 0;
    proof {
        assert(win.deep_view().take(0) =~= Seq::<DiskRowV>::empty());
        reveal(Seq::filter);
    }
    while i < win.len()
        invariant
            i <= win@.len(),
            win@.len() == win.deep_view().len(),
            count <= i,
            ({
                let g = d_group(win.deep_view().take(i as int), name@);
                &&& count == g.len()
                &&& m_read == max_u64(g.map_values(|r: DiskRowV| r.total_read))
                &&& m_write == max_u64(g.map_values(|r: DiskRowV| r.total_write))
                &&& s_read == sum_u64(g.map_values(|r: DiskRowV| r.read_rate))
                &&& s_write == sum_u64(g.map_values(|r: DiskRowV| r.write_rate))
                &&& s_usage == sum_u64(g.map_values(|r: DiskRowV| r.disk_usage))
                &&& s_read <= count * 0xffff_ffff_ffff_ffffu128
                &&& s_write <= count * 0xffff_ffff_ffff_ffffu128
                &&& s_usage <= count * 0xffff_ffff_ffff_ffffu128
            }),
        decreases win@.len() - i,
    {
        let ghost gpre = d_group(win.deep_view().take(i as int), name@);
        let ghost rv = win.deep_view()[i as int];
        proof {
            lemma_filter_push(
                win.deep_view().take(i as int),
                |r: DiskRowV| r.name == name@,
                rv,
            );
            assert(win.deep_view().take(i as int).push(rv) =~= win.deep_view().take(i + 1));
            if rv.name == name@ {
                lemma_max_push(gpre.map_values(|r: DiskRowV| r.total_read), rv.total_read);
                lemma_max_push(gpre.map_values(|r: DiskRowV| r.total_write), rv.total_write);
                lemma_sum_push(gpre.map_values(|r: DiskRowV| r.read_rate), rv.read_rate);
                lemma_sum_push(gpre.map_values(|r: DiskRowV| r.write_rate), rv.write_rate);
                lemma_sum_push(gpre.map_values(|r: DiskRowV| r.disk_usage), rv.disk_usage);
                assert(gpre.push(rv).map_values(|r: DiskRowV| r.total_read) =~= gpre.map_values(
                    |r: DiskRowV| r.total_read,
                ).push(rv.total_read));
                assert(gpre.push(rv).map_values(|r: DiskRowV| r.total_write) =~= gpre.map_values(
                    |r: DiskRowV| r.total_write,
                ).push(rv.total_write));
                assert(gpre.push(rv).map_values(|r: DiskRowV| r.read_rate) =~= gpre.map_values(
                    |r: DiskRowV| r.read_rate,
                ).push(rv.read_rate));
                assert(gpre.push(rv).map_values(|r: DiskRowV| r.write_rate) =~= gpre.map_values(
                    |r: DiskRowV| r.write_rate,
                ).push(rv.write_rate));
                assert(gpre.push(rv).map_values(|r: DiskRowV| r.disk_usage) =~= gpre.map_values(
                    |r: DiskRowV| r.disk_usage,
                ).push(rv.disk_usage));
            }
        }
        if win[i].name.eq(name) {
            count = count + 1;
            if win[i].total_read > m_read {
                m_read = win[i].total_read;
            }
            if win[i].total_write > m_write {
                m_write = win[i].total_write;
            }
            s_read = s_read + win[i].read_rate as u128;
            s_write = s_write + win[i].write_rate as u128;
            s_usage = s_usage + win[i].disk_usage as u128;
        }
        i += 1;
    }
    proof {
        assert(win.deep_view().take(i as int) =~= win.deep_view());
    }
    let name_copy = name.clone();
    DiskRow {
        timestamp: stamp,
        name: name_copy,
        total_read: m_read,
        total_write: m_write,
        read_rate: round_mean_u64(s_read, count),
        write_rate: round_mean_u64(s_write, count),
        disk_usage: round_mean_u64(s_usage, count),
    }
}

/// Computes the roll-up rows of a `disk` table over `[lo, hi]`: one row per
/// mount seen in the window, in order of first appearance.
pub fn roll_up_disk(src: &Vec<DiskRow>, lo: i64, hi: i64, stamp: i64) -> (r: Vec<DiskRow>)
    ensures
        r.deep_view() == d_roll(src.deep_view(), lo as int, hi as int, stamp),
{
    let ghost winv = d_window(src.deep_view(), lo as int, hi as int);
    let ghost expect = d_roll(src.deep_view(), lo as int, hi as int, stamp);
    let win = d_window_vec(src, lo, hi);
    let names = d_collect_names(&win);
    let mut out: Vec<DiskRow> = Vec::new();
    let mut k: usize = 0;
    proof {
        assert(out.deep_view() =~= expect.take(0));
    }
    while k < names.len()
        invariant
            k <= names@.len(),
            names@.len() == names.deep_view().len(),
            win.deep_view() == winv,
            names.deep_view() == d_names(winv),
            expect == d_roll(src.deep_view(), lo as int, hi as int, stamp),
            expect == d_names(winv).map_values(|nm: Seq<char>| d_agg_row(winv, nm, stamp)),
            out.deep_view() == expect.take(k as int),
        decreases names@.len() - k,
    {
        proof {
            assert(names.deep_view()[k as int] == d_names(winv)[k as int]);
            assert(d_names(winv).contains(d_names(winv)[k as int]));
            lemma_d_group_nonempty(winv, names.deep_view()[k as int]);
        }
        let row = d_group_agg(&win, &names[k], stamp);
        let ghost outpre = out.deep_view();
        let ghost rowv = row@;
        out.push(row);
        proof {
            assert(names@[k as int]@ == names.deep_view()[k as int]);
            assert(expect[k as int] == d_agg_row(winv, d_names(winv)[k as int], stamp));
            assert(rowv == expect[k as int]);
            assert(out.deep_view() =~= outpre.push(rowv));
            assert(out.deep_view() =~= expect.take(k + 1));
        }
        k += 1;
    }
    proof {
        assert(expect.take(k as int) =~= expect);
    }
    out
}

} // verus!
