//! The multi-resolution time-series store: twelve metric tables arranged as
//! three categories by four resolutions, plus a key-value side table.
//! Tables are kept ordered by timestamp; the key-value table keeps one entry
//! per key.

use vstd::prelude::*;

verus! {

/// One row of a `general` (system-wide) table. Gauge values are in
/// hundredths of a percent or of a load unit.
#[derive(Debug, Clone, Copy, PartialEq, Eq, Structural)]
pub struct GeneralRow {
    pub timestamp: i64,
    pub cpu_usage: u64,
    pub mem_usage: u64,
    pub swap_usage: u64,
    pub load_avg_1: u64,
    pub load_avg_5: u64,
    pub load_avg_15: u64,
}

/// One row of a `net` table: cumulative byte counters and derived rates
/// (whole bytes per second) for one interface.
#[derive(Debug)]
pub struct NetRow {
    pub timestamp: i64,
    pub name: String,
    pub rx: u64,
    pub tx: u64,
    pub rx_rate: u64,
    pub tx_rate: u64,
}

pub ghost struct NetRowV {
    pub timestamp: i64,
    pub name: Seq<char>,
    pub rx: u64,
    pub tx: u64,
    pub rx_rate: u64,
    pub tx_rate: u64,
}

impl View for NetRow {
    type V = NetRowV;

    open spec fn view(&self) -> NetRowV {
        NetRowV {
            timestamp: self.timestamp,
            name: self.name@,
            rx: self.rx,
            tx: self.tx,
            rx_rate: self.rx_rate,
            tx_rate: self.tx_rate,
        }
    }
}

impl DeepView for NetRow {
    type V = NetRowV;

    open spec fn deep_view(&self) -> NetRowV {
        self.view()
    }
}

impl NetRow {
    /// A copy of the row, with a contract (a derived clone would carry none).
    pub fn duplicate(&self) -> (r: NetRow)
        ensures
            r@ == self@,
    {
        NetRow {
            timestamp: self.timestamp,
            name: self.name.clone(),
            rx: self.rx,
            tx: self.tx,
            rx_rate: self.rx_rate,
            tx_rate: self.tx_rate,
        }
    }
}

/// One row of a `disk` table: cumulative I/O counters, derived rates (whole
/// bytes per second) and the usage percentage (hundredths) for one mount.
#[derive(Debug)]
pub struct DiskRow {
    pub timestamp: i64,
    pub name: String,
    pub total_read: u64,
    pub total_write: u64,
    pub read_rate: u64,
    pub write_rate: u64,
    pub disk_usage: u64,
}

pub ghost struct DiskRowV {
    pub timestamp: i64,
    pub name: Seq<char>,
    pub total_read: u64,
    pub total_write: u64,
    pub read_rate: u64,
    pub write_rate: u64,
    pub disk_usage: u64,
}

impl View for DiskRow {
    type V = DiskRowV;

    open spec fn view(&self) -> DiskRowV {
        DiskRowV {
            timestamp: self.timestamp,
            name: self.name@,
            total_read: self.total_read,
            total_write: self.total_write,
            read_rate: self.read_rate,
            write_rate: self.write_rate,
            disk_usage: self.disk_usage,
        }
    }
}

impl DeepView for DiskRow {
    type V = DiskRowV;

    open spec fn deep_view(&self) -> DiskRowV {
        self.view()
    }
}

impl DiskRow {
    /// A copy of the row, with a contract (a derived clone would carry none).
    pub fn duplicate(&self) -> (r: DiskRow)
        ensures
            r@ == self@,
    {
        DiskRow {
            timestamp: self.timestamp,
            name: self.name.clone(),
            total_read: self.total_read,
            total_write: self.total_write,
            read_rate: self.read_rate,
            write_rate: self.write_rate,
            disk_usage: self.disk_usage,
        }
    }
}

/// One entry of the key-value side table.
#[derive(Debug)]
pub struct KvPair {
    pub key: String,
    pub value: String,
}

pub ghost struct KvPairV {
    pub key: Seq<char>,
    pub value: Seq<char>,
}

impl View for KvPair {
    type V = KvPairV;

    open spec fn view(&self) -> KvPairV {
        KvPairV { key: self.key@, value: self.value@ }
    }
}

impl DeepView for KvPair {
    type V = KvPairV;

    open spec fn deep_view(&self) -> KvPairV {
        self.view()
    }
}

/// One of the four storage tiers.
#[derive(Debug, Clone, Copy, PartialEq, Eq, Structural)]
pub enum Resolution {
    Second,
    Minute,
    Hour,
    Day,
}

/// The mathematical content of a [`Store`].
pub ghost struct StoreModel {
    pub general_s: Seq<GeneralRow>,
    pub general_m: Seq<GeneralRow>,
    pub general_h: Seq<GeneralRow>,
    pub general_d: Seq<GeneralRow>,
    pub net_s: Seq<NetRowV>,
    pub net_m: Seq<NetRowV>,
    pub net_h: Seq<NetRowV>,
    pub net_d: Seq<NetRowV>,
    pub disk_s: Seq<DiskRowV>,
    pub disk_m: Seq<DiskRowV>,
    pub disk_h: Seq<DiskRowV>,
    pub disk_d: Seq<DiskRowV>,
    pub kv: Seq<KvPairV>,
}

/// The twelve metric tables plus the key-value table.
#[derive(Debug)]
pub struct Store {
    pub general_s: Vec<GeneralRow>,
    pub general_m: Vec<GeneralRow>,
    pub general_h: Vec<GeneralRow>,
    pub general_d: Vec<GeneralRow>,
    pub net_s: Vec<NetRow>,
    pub net_m: Vec<NetRow>,
    pub net_h: Vec<NetRow>,
    pub net_d: Vec<NetRow>,
    pub disk_s: Vec<DiskRow>,
    pub disk_m: Vec<DiskRow>,
    pub disk_h: Vec<DiskRow>,
    pub disk_d: Vec<DiskRow>,
    pub kv: Vec<KvPair>,
}

impl View for Store {
    type V = StoreModel;

    open spec fn view(&self) -> StoreModel {
        StoreModel {
            general_s: self.general_s@,
            general_m: self.general_m@,
            general_h: self.general_h@,
            general_d: self.general_d@,
            net_s: self.net_s.deep_view(),
            net_m: self.net_m.deep_view(),
            net_h: self.net_h.deep_view(),
            net_d: self.net_d.deep_view(),
            disk_s: self.disk_s.deep_view(),
            disk_m: self.disk_m.deep_view(),
            disk_h: self.disk_h.deep_view(),
            disk_d: self.disk_d.deep_view(),
            kv: self.kv.deep_view(),
        }
    }
}

/// The `general` table of a tier.
pub open spec fn general_at(m: StoreModel, res: Resolution) -> Seq<GeneralRow> {
    match res {
        Resolution::Second => m.general_s,
        Resolution::Minute => m.general_m,
        Resolution::Hour => m.general_h,
        Resolution::Day => m.general_d,
    }
}

/// The `net` table of a tier.
pub open spec fn net_at(m: StoreModel, res: Resolution) -> Seq<NetRowV> {
    match res {
        Resolution::Second => m.net_s,
        Resolution::Minute => m.net_m,
        Resolution::Hour => m.net_h,
        Resolution::Day => m.net_d,
    }
}

/// The `disk` table of a tier.
pub open spec fn disk_at(m: StoreModel, res: Resolution) -> Seq<DiskRowV> {
    match res {
        Resolution::Second => m.disk_s,
        Resolution::Minute => m.disk_m,
        Resolution::Hour => m.disk_h,
        Resolution::Day => m.disk_d,
    }
}

/// Rows appear in nondecreasing timestamp order.
pub open spec fn g_sorted(s: Seq<GeneralRow>) -> bool {
    forall|i: int, j: int| 0 <= i < j < s.len() ==> s[i].timestamp <= s[j].timestamp
}

/// Rows appear in nondecreasing timestamp order.
pub open spec fn n_sorted(s: Seq<NetRowV>) -> bool {
    forall|i: int, j: int| 0 <= i < j < s.len() ==> s[i].timestamp <= s[j].timestamp
}

/// Rows appear in nondecreasing timestamp order.
pub open spec fn d_sorted(s: Seq<DiskRowV>) -> bool {
    forall|i: int, j: int| 0 <= i < j < s.len() ==> s[i].timestamp <= s[j].timestamp
}

/// No key occurs twice in the key-value table.
pub open spec fn kv_keys_unique(s: Seq<KvPairV>) -> bool {
    forall|i: int, j: int| 0 <= i < j < s.len() ==> s[i].key != s[j].key
}

/// Well-formedness of the store: every table ordered by timestamp and
/// key-value keys unique. Constructors establish it; every operation
/// preserves it.
pub open spec fn store_inv(m: StoreModel) -> bool {
    &&& g_sorted(m.general_s)
    &&& g_sorted(m.general_m)
    &&& g_sorted(m.general_h)
    &&& g_sorted(m.general_d)
    &&& n_sorted(m.net_s)
    &&& n_sorted(m.net_m)
    &&& n_sorted(m.net_h)
    &&& n_sorted(m.net_d)
    &&& d_sorted(m.disk_s)
    &&& d_sorted(m.disk_m)
    &&& d_sorted(m.disk_h)
    &&& d_sorted(m.disk_d)
    &&& kv_keys_unique(m.kv)
}

/// The value stored under a key, if any.
pub open spec fn spec_kv_get(kv: Seq<KvPairV>, key: Seq<char>) -> Option<Seq<char>>
    decreases kv.len(),
{
    if kv.len() == 0 {
        None
    } else if kv[0].key == key {
        Some(kv[0].value)
    } else {
        spec_kv_get(kv.drop_first(), key)
    }
}

/// The key-value table after binding `key` to `value`: the first entry with
/// that key is overwritten, or a new entry is appended.
pub open spec fn spec_kv_set(kv: Seq<KvPairV>, key: Seq<char>, value: Seq<char>) -> Seq<KvPairV>
    decreases kv.len(),
{
    if kv.len() == 0 {
        seq![KvPairV { key, value }]
    } else if kv[0].key == key {
        seq![KvPairV { key, value }] + kv.drop_first()
    } else {
        seq![kv[0]] + spec_kv_set(kv.drop_first(), key, value)
    }
}

impl Store {
    /// Whether the store is well-formed; see [`store_inv`].
    pub open spec fn wf(&self) -> bool {
        store_inv(self@)
    }

    /// An empty store: every table empty.
    pub fn new() -> (s: Store)
        ensures
            s.wf(),
            s@.general_s.len() == 0 && s@.general_m.len() == 0,
            s@.general_h.len() == 0 && s@.general_d.len() == 0,
            s@.net_s.len() == 0 && s@.net_m.len() == 0,
            s@.net_h.len() == 0 && s@.net_d.len() == 0,
            s@.disk_s.len() == 0 && s@.disk_m.len() == 0,
            s@.disk_h.len() == 0 && s@.disk_d.len() == 0,
            s@.kv.len() == 0,
    {
        Store {
            general_s: Vec::new(),
            general_m: Vec::new(),
            general_h: Vec::new(),
            general_d: Vec::new(),
            net_s: Vec::new(),
            net_m: Vec::new(),
            net_h: Vec::new(),
            net_d: Vec::new(),
            disk_s: Vec::new(),
            disk_m: Vec::new(),
            disk_h: Vec::new(),
            disk_d: Vec::new(),
            kv: Vec::new(),
        }
    }

    /// Reads the value stored under `key`, if any.
    pub fn get_kv_str(&self, key: &str) -> (r: Option<String>)
        ensures
            match r {
                Some(v) => spec_kv_get(self@.kv, key@) == Some(v@),
                None => spec_kv_get(self@.kv, key@) is None,
            },
    {
        let n = self.kv.len();
        let mut i: usize = 0;
        proof {
            assert(self@.kv.skip(0) =~= self@.kv);
        }
        while i < n
            invariant
                n == self.kv@.len(),
                i <= n,
                spec_kv_get(self@.kv, key@) == spec_kv_get(self@.kv.skip(i as int), key@),
            decreases n - i,
        {
            proof {
                assert(self@.kv.skip(i as int)[0] == self.kv@[i as int]@);
                assert(self@.kv.skip(i as int).drop_first() =~= self@.kv.skip(i + 1));
            }
            if self.kv[i].key == key.to_owned() {
                return Some(self.kv[i].value.clone());
            }
            i += 1;
        }
        proof {
            assert(self@.kv.skip(i as int) =~= Seq::<KvPairV>::empty());
        }
        None
    }

    /// Binds `key` to `value`, overwriting an existing entry for the key.
    pub fn set_kv_str(&mut self, key: &str, value: &str)
        requires
            old(self).wf(),
        ensures
            final(self).wf(),
            final(self)@.kv == spec_kv_set(old(self)@.kv, key@, value@),
            final(self)@ == (StoreModel { kv: final(self)@.kv, ..old(self)@ }),
    {
        let n = self.kv.len();
        let mut i: usize = 0;
        proof {
            assert(self@.kv.skip(0) =~= self@.kv);
            assert(self@.kv.take(0) + spec_kv_set(self@.kv, key@, value@) =~= spec_kv_set(
                self@.kv,
                key@,
                value@,
            ));
        }
        while i < n
            invariant
                old(self).wf(),
                n == self.kv@.len(),
                i <= n,
                self@ == old(self)@,
                forall|j: int| 0 <= j < i ==> self@.kv[j].key != key@,
                spec_kv_set(old(self)@.kv, key@, value@) == self@.kv.take(i as int) + spec_kv_set(
                    self@.kv.skip(i as int),
                    key@,
                    value@,
                ),
            decreases n - i,
        {
            proof {
                assert(self@.kv.skip(i as int)[0] == self.kv@[i as int]@);
                assert(self@.kv.skip(i as int).drop_first() =~= self@.kv.skip(i + 1));
            }
            if self.kv[i].key == key.to_owned() {
                let ghost pre = self@.kv;
                let replacement = KvPair { key: key.to_owned(), value: value.to_owned() };
                let _ = self.kv.remove(i);
                self.kv.insert(i, replacement);
                proof {
                    assert(self@.kv =~= pre.update(
                        i as int,
                        KvPairV { key: key@, value: value@ },
                    ));
                    assert(pre.take(i as int) + (seq![
                        KvPairV { key: key@, value: value@ },
                    ] + pre.skip(i + 1)) =~= pre.update(
                        i as int,
                        KvPairV { key: key@, value: value@ },
                    ));
                    assert(pre.skip(i as int).drop_first() =~= pre.skip(i + 1));
                    assert(pre == old(self)@.kv);
                    assert(kv_keys_unique(pre));
                    assert forall|a: int, b: int|
                        0 <= a < b < self@.kv.len() implies self@.kv[a].key
                        != self@.kv[b].key by {
                        assert(self@.kv[a].key == pre[a].key);
                        assert(self@.kv[b].key == pre[b].key);
                        assert(pre[a].key != pre[b].key);
                    }
                    assert(kv_keys_unique(self@.kv));
                }
                return ;
            }
            proof {
                assert(self@.kv.take(i as int) + (seq![self@.kv[i as int]] + spec_kv_set(
                    self@.kv.skip(i + 1),
                    key@,
                    value@,
                )) =~= self@.kv.take(i + 1) + spec_kv_set(self@.kv.skip(i + 1), key@, value@));
            }
            i += 1;
        }
        let ghost pre = self@.kv;
        self.kv.push(KvPair { key: key.to_owned(), value: value.to_owned() });
        proof {
            assert(pre.skip(i as int) =~= Seq::<KvPairV>::empty());
            assert(self@.kv =~= pre.take(i as int) + seq![KvPairV { key: key@, value: value@ }]);
            assert(pre == old(self)@.kv);
            assert(kv_keys_unique(pre));
            assert forall|a: int, b: int|
                0 <= a < b < self@.kv.len() implies self@.kv[a].key != self@.kv[b].key by {
                if b < pre.len() {
                    assert(self@.kv[a].key == pre[a].key);
                    assert(self@.kv[b].key == pre[b].key);
                    assert(pre[a].key != pre[b].key);
                } else {
                    assert(self@.kv[a].key == pre[a].key);
                    assert(self@.kv[b].key == key@);
                }
            }
            assert(kv_keys_unique(self@.kv));
        }
    }
}

/// Binding a key stores exactly that value under the key.
pub proof fn lemma_kv_set_get(kv: Seq<KvPairV>, key: Seq<char>, value: Seq<char>)
    ensures
        spec_kv_get(spec_kv_set(kv, key, value), key) == Some(value),
    decreases kv.len(),
{
    if kv.len() > 0 && kv[0].key != key {
        lemma_kv_set_get(kv.drop_first(), key, value);
        let out = spec_kv_set(kv, key, value);
        assert(out.drop_first() =~= spec_kv_set(kv.drop_first(), key, value));
    }
}

/// Binding one key leaves every other key's value untouched.
pub proof fn lemma_kv_set_other(kv: Seq<KvPairV>, key: Seq<char>, value: Seq<char>, other: Seq<char>)
    requires
        other != key,
    ensures
        spec_kv_get(spec_kv_set(kv, key, value), other) == spec_kv_get(kv, other),
    decreases kv.len(),
{
    let out = spec_kv_set(kv, key, value);
    if kv.len() == 0 {
        assert(out[0] == (KvPairV { key, value }));
        assert(out.drop_first() =~= Seq::<KvPairV>::empty());
    } else if kv[0].key == key {
        assert(out[0] == (KvPairV { key, value }));
        assert(out.drop_first() =~= kv.drop_first());
    } else {
        assert(out[0] == kv[0]);
        lemma_kv_set_other(kv.drop_first(), key, value, other);
        assert(out.drop_first() =~= spec_kv_set(kv.drop_first(), key, value));
        if kv[0].key != other {
            assert(spec_kv_get(out, other) == spec_kv_get(out.drop_first(), other));
            assert(spec_kv_get(kv, other) == spec_kv_get(kv.drop_first(), other));
        }
    }
}

} // verus!
