//! What polling, rate changes and the network records do to the monitor's windows,
//! stated sample by sample.

use vstd::prelude::*;
use crate::monitor::{
    expected_network_records, gpu_record_matches, history_len, rate_changed, refreshed,
    window_or_empty, GpuData, GpuDevice, InterfaceStats, MonitorState, NetworkRecord,
};
use crate::text::decimal_text;
use crate::names::texts;
use crate::window::filled;

verus! {

/// The window at `i` of a row, or a fresh window of `n` copies of `zero` where the row
/// has none yet.
pub open spec fn window_or_fresh<T>(ws: Seq<Seq<T>>, i: int, n: nat, zero: T) -> Seq<T> {
    if 0 <= i < ws.len() {
        ws[i]
    } else {
        filled(n, zero)
    }
}

/// `new` is `old` cut or padded with `zero` at its back to `n` samples: it holds `n`
/// samples, sample `j` is the old sample `j` where there was one and `zero` after.
pub open spec fn cut_or_padded<T>(new: Seq<T>, old: Seq<T>, n: nat, zero: T) -> bool {
    &&& new.len() == n
    &&& forall|j: int| 0 <= j < n ==> #[trigger] new[j] == if j < old.len() {
        old[j]
    } else {
        zero
    }
}

/// Every window of `new` is the window at the same place of `old`, cut or padded.
pub open spec fn row_cut_or_padded<T>(new: Seq<Seq<T>>, old: Seq<Seq<T>>, n: nat, zero: T) -> bool {
    &&& new.len() == old.len()
    &&& forall|i: int| 0 <= i < old.len() ==> cut_or_padded(#[trigger] new[i], old[i], n, zero)
}

/// A poll, sample by sample. Each core window (a fresh zero window for a core that
/// was not tracked before) drops its oldest sample and takes that core's usage last;
/// the memory window does the same with the memory sample. A network window with a
/// reading drops its oldest sample and takes the reading; a network window without a
/// reading is left exactly as it was. Without GPU readings the GPU windows stay as
/// they were; with them, each GPU that was read slides both windows by its two
/// figures and a GPU that could not be opened keeps both windows.
pub proof fn lemma_refresh_per_sample<T>(
    s: MonitorState<T>,
    cpu_usage: Seq<T>,
    mem_percent: T,
    gpu: Option<Seq<Option<(T, T)>>>,
    net_rx: Seq<Option<T>>,
)
    requires
        s.well_formed(),
    ensures
        refreshed(s, cpu_usage, mem_percent, gpu, net_rx).cpu.len() == cpu_usage.len(),
        forall|i: int|
            0 <= i < cpu_usage.len() ==> #[trigger] refreshed(
                s,
                cpu_usage,
                mem_percent,
                gpu,
                net_rx,
            ).cpu[i] == window_or_fresh(s.cpu, i, s.max_history, s.zero).drop_first().push(
                cpu_usage[i],
            ),
        refreshed(s, cpu_usage, mem_percent, gpu, net_rx).mem == s.mem.drop_first().push(
            mem_percent,
        ),
        refreshed(s, cpu_usage, mem_percent, gpu, net_rx).net.len() == s.net.len(),
        forall|i: int|
            0 <= i < s.net.len() && i < net_rx.len() && net_rx[i] is Some ==> #[trigger] refreshed(
                s,
                cpu_usage,
                mem_percent,
                gpu,
                net_rx,
            ).net[i] == s.net[i].drop_first().push(net_rx[i]->0),
        forall|i: int|
            0 <= i < s.net.len() && (i >= net_rx.len() || net_rx[i] is None) ==> #[trigger] refreshed(
                s,
                cpu_usage,
                mem_percent,
                gpu,
                net_rx,
            ).net[i] == s.net[i],
        gpu is None ==> refreshed(s, cpu_usage, mem_percent, gpu, net_rx).gpu_util == s.gpu_util
            && refreshed(s, cpu_usage, mem_percent, gpu, net_rx).gpu_mem == s.gpu_mem,
        gpu is Some ==> refreshed(s, cpu_usage, mem_percent, gpu, net_rx).gpu_util.len()
            == gpu->0.len() && refreshed(s, cpu_usage, mem_percent, gpu, net_rx).gpu_mem.len()
            == gpu->0.len(),
        forall|i: int|
            #![trigger refreshed(s, cpu_usage, mem_percent, gpu, net_rx).gpu_util[i]]
            gpu is Some && 0 <= i < gpu->0.len() && gpu->0[i] is Some ==> {
                &&& refreshed(s, cpu_usage, mem_percent, gpu, net_rx).gpu_util[i] == window_or_fresh(
                    s.gpu_util,
                    i,
                    s.max_history,
                    s.zero,
                ).drop_first().push((gpu->0[i]->0).0)
                &&& refreshed(s, cpu_usage, mem_percent, gpu, net_rx).gpu_mem[i] == window_or_fresh(
                    s.gpu_mem,
                    i,
                    s.max_history,
                    s.zero,
                ).drop_first().push((gpu->0[i]->0).1)
            },
        forall|i: int|
            #![trigger refreshed(s, cpu_usage, mem_percent, gpu, net_rx).gpu_util[i]]
            gpu is Some && 0 <= i < gpu->0.len() && gpu->0[i] is None ==> {
                &&& refreshed(s, cpu_usage, mem_percent, gpu, net_rx).gpu_util[i] == window_or_fresh(
                    s.gpu_util,
                    i,
                    s.max_history,
                    s.zero,
                )
                &&& refreshed(s, cpu_usage, mem_percent, gpu, net_rx).gpu_mem[i] == window_or_fresh(
                    s.gpu_mem,
                    i,
                    s.max_history,
                    s.zero,
                )
            },
{
    let r = refreshed(s, cpu_usage, mem_percent, gpu, net_rx);
    crate::monitor::lemma_refreshed_well_formed(s, cpu_usage, mem_percent, gpu, net_rx);
    assert forall|i: int| 0 <= i < cpu_usage.len() implies #[trigger] r.cpu[i]
        == window_or_fresh(s.cpu, i, s.max_history, s.zero).drop_first().push(cpu_usage[i]) by {
        let w = window_or_fresh(s.cpu, i, s.max_history, s.zero);
        assert(w.len() == s.max_history);
        assert(w.len() > 0);
    }
    assert forall|i: int|
        0 <= i < s.net.len() && i < net_rx.len() && net_rx[i] is Some implies #[trigger] r.net[i]
        == s.net[i].drop_first().push(net_rx[i]->0) by {
        assert(s.net[i].len() == s.max_history);
    }
    match gpu {
        Some(rs) => {
            assert forall|i: int|
                #![trigger r.gpu_util[i]]
                0 <= i < rs.len() && rs[i] is Some implies {
                &&& r.gpu_util[i] == window_or_fresh(s.gpu_util, i, s.max_history, s.zero).drop_first().push(
                    (rs[i]->0).0,
                )
                &&& r.gpu_mem[i] == window_or_fresh(s.gpu_mem, i, s.max_history, s.zero).drop_first().push(
                    (rs[i]->0).1,
                )
            } by {
                if i < s.gpu_util.len() {
                    assert(s.gpu_util[i].len() == s.max_history);
                    assert(s.gpu_mem[i].len() == s.max_history);
                }
            }
        },
        None => {},
    }
}

/// A change of poll interval, sample by sample: every window of every row (cores,
/// memory, both GPU rows, network) is its old content cut or padded with `zero` at
/// the back to `history_len(ms)` samples; no window is added or removed.
pub proof fn lemma_rate_change_per_sample<T>(s: MonitorState<T>, ms: u64)
    ensures
        row_cut_or_padded(rate_changed(s, ms).cpu, s.cpu, history_len(ms), s.zero),
        cut_or_padded(rate_changed(s, ms).mem, s.mem, history_len(ms), s.zero),
        row_cut_or_padded(rate_changed(s, ms).gpu_util, s.gpu_util, history_len(ms), s.zero),
        row_cut_or_padded(rate_changed(s, ms).gpu_mem, s.gpu_mem, history_len(ms), s.zero),
        row_cut_or_padded(rate_changed(s, ms).net, s.net, history_len(ms), s.zero),
        rate_changed(s, ms).interfaces == s.interfaces,
        rate_changed(s, ms).max_history == history_len(ms),
{
    let n = history_len(ms);
    let r = rate_changed(s, ms);
    assert forall|i: int| 0 <= i < s.cpu.len() implies cut_or_padded(#[trigger] r.cpu[i], s.cpu[i], n, s.zero) by {}
    assert forall|i: int| 0 <= i < s.gpu_util.len() implies cut_or_padded(
        #[trigger] r.gpu_util[i],
        s.gpu_util[i],
        n,
        s.zero,
    ) by {}
    assert forall|i: int| 0 <= i < s.gpu_mem.len() implies cut_or_padded(
        #[trigger] r.gpu_mem[i],
        s.gpu_mem[i],
        n,
        s.zero,
    ) by {}
    assert forall|i: int| 0 <= i < s.net.len() implies cut_or_padded(#[trigger] r.net[i], s.net[i], n, s.zero) by {}
}


/// What `filter_map` keeps of the results for the indices `0..n`.
spec fn kept<B>(n: nat, f: spec_fn(int) -> Option<B>) -> Seq<B> {
    Seq::new(n, |j: int| j).filter_map(f)
}

/// The items that `filter_map` keeps from the indices `0..n` are present results, and
/// every present result is kept.
proof fn lemma_filter_map_indices<B>(n: nat, f: spec_fn(int) -> Option<B>)
    ensures
        forall|k: int|
            0 <= k < kept(n, f).len() ==> exists|j: int|
                0 <= j < n && #[trigger] f(j) == Some(#[trigger] kept(n, f)[k]),
        forall|j: int|
            0 <= j < n && (#[trigger] f(j)) is Some ==> exists|k: int|
                0 <= k < kept(n, f).len() && Some(#[trigger] kept(n, f)[k]) == f(j),
    decreases n,
{
    let r = kept(n, f);
    if n > 0 {
        let m = (n - 1) as nat;
        let idx = Seq::new(n, |j: int| j);
        assert(idx.drop_last() =~= Seq::new(m, |j: int| j));
        assert(idx.last() == m as int);
        let prev = kept(m, f);
        lemma_filter_map_indices(m, f);
        match f(m as int) {
            Some(x) => {
                assert(r =~= prev + seq![x]);
            },
            None => {
                assert(r =~= prev);
            },
        }
        assert forall|k: int| 0 <= k < r.len() implies exists|j: int|
            0 <= j < n && #[trigger] f(j) == Some(#[trigger] kept(n, f)[k]) by {
            if k < prev.len() {
                let j = choose|j: int| 0 <= j < m && #[trigger] f(j) == Some(#[trigger] kept(m, f)[k]);
                assert(r[k] == prev[k]);
                assert(f(j) == Some(r[k]));
            } else {
                assert(f(m as int) == Some(r[k]));
            }
        }
        assert forall|j: int| 0 <= j < n && (#[trigger] f(j)) is Some implies exists|k: int|
            0 <= k < r.len() && Some(#[trigger] kept(n, f)[k]) == f(j) by {
            if j < m {
                let k = choose|k: int| 0 <= k < prev.len() && Some(#[trigger] kept(m, f)[k]) == f(j);
                assert(r[k] == prev[k]);
            } else {
                assert(Some(r[prev.len() as int]) == f(j));
            }
        }
    }
}

/// `rec` describes tracked interface `j` as read: its name, the counters and the IPv4
/// list of its reading (the same addresses in the same order), a copy of its window,
/// and whether its name is the default interface's.
pub open spec fn record_reads<T>(
    rec: NetworkRecord<T>,
    s: MonitorState<T>,
    stats: Seq<Option<InterfaceStats>>,
    default_interface: Option<String>,
    j: int,
) -> bool {
    &&& 0 <= j < s.interfaces.len()
    &&& j < stats.len()
    &&& stats[j] is Some
    &&& rec.name == s.interfaces[j]
    &&& rec.rx_bytes == (stats[j]->0).rx_bytes
    &&& rec.tx_bytes == (stats[j]->0).tx_bytes
    &&& rec.total_rx_bytes == (stats[j]->0).total_rx_bytes
    &&& rec.total_tx_bytes == (stats[j]->0).total_tx_bytes
    &&& rec.ips_v4.len() == (stats[j]->0).ips_v4@.len()
    &&& forall|a: int|
        0 <= a < (stats[j]->0).ips_v4@.len() ==> #[trigger] rec.ips_v4[a] == (
        stats[j]->0).ips_v4@[a]@
    &&& rec.history == window_or_empty(s.net, j)
    &&& rec.is_default == (default_interface is Some && default_interface->0@ == s.interfaces[j])
}

/// An interface index that `rec` describes as read, where there is one.
pub open spec fn read_index<T>(
    rec: NetworkRecord<T>,
    s: MonitorState<T>,
    stats: Seq<Option<InterfaceStats>>,
    default_interface: Option<String>,
) -> int {
    choose|j: int| record_reads(rec, s, stats, default_interface, j)
}

/// The network records are exactly the tracked interfaces that were found: each record
/// describes, as read, some tracked interface with a reading, and every tracked
/// interface with a reading has a record with its name.
pub proof fn lemma_network_records_as_read<T>(
    s: MonitorState<T>,
    stats: Seq<Option<InterfaceStats>>,
    default_interface: Option<String>,
)
    ensures
        forall|k: int|
            0 <= k < expected_network_records(s, stats, default_interface).len() ==> record_reads(
                #[trigger] expected_network_records(s, stats, default_interface)[k],
                s,
                stats,
                default_interface,
                read_index(
                    expected_network_records(s, stats, default_interface)[k],
                    s,
                    stats,
                    default_interface,
                ),
            ),
        forall|j: int|
            #![trigger stats[j]]
            0 <= j < s.interfaces.len() && j < stats.len() && stats[j] is Some ==> exists|k: int|
                0 <= k < expected_network_records(s, stats, default_interface).len()
                    && (#[trigger] expected_network_records(s, stats, default_interface)[k]).name
                    == s.interfaces[j],
{
    let f = |j: int| crate::monitor::network_record_at(s, stats, default_interface, j);
    let n = s.interfaces.len();
    lemma_filter_map_indices(n, f);
    let r = expected_network_records(s, stats, default_interface);
    assert(r == kept(n, f));
    assert forall|k: int| 0 <= k < r.len() implies record_reads(
        #[trigger] r[k],
        s,
        stats,
        default_interface,
        read_index(r[k], s, stats, default_interface),
    ) by {
        let j = choose|j: int| 0 <= j < n && #[trigger] f(j) == Some(#[trigger] kept(n, f)[k]);
        assert(stats[j] is Some);
        assert(r[k].ips_v4 == texts((stats[j]->0).ips_v4@));
        assert(record_reads(r[k], s, stats, default_interface, j));
    }
    assert forall|j: int|
        #![trigger stats[j]]
        0 <= j < s.interfaces.len() && j < stats.len() && stats[j] is Some implies exists|k: int|
        0 <= k < r.len() && (#[trigger] r[k]).name == s.interfaces[j] by {
        assert(f(j) is Some);
        let k = choose|k: int| 0 <= k < r.len() && Some(#[trigger] kept(n, f)[k]) == f(j);
        assert(r[k].name == s.interfaces[j]);
    }
}


/// The indices whose results `filter_map` keeps, in increasing order.
proof fn lemma_filter_map_order<B>(n: nat, f: spec_fn(int) -> Option<B>) -> (idx: Seq<int>)
    ensures
        idx.len() == kept(n, f).len(),
        forall|k: int|
            0 <= k < idx.len() ==> 0 <= #[trigger] idx[k] < n && f(idx[k]) == Some(kept(n, f)[k]),
        forall|a: int, b: int| 0 <= a < b < idx.len() ==> #[trigger] idx[a] < #[trigger] idx[b],
    decreases n,
{
    if n == 0 {
        Seq::empty()
    } else {
        let m = (n - 1) as nat;
        let all = Seq::new(n, |j: int| j);
        assert(all.drop_last() =~= Seq::new(m, |j: int| j));
        assert(all.last() == m as int);
        let prev = lemma_filter_map_order(m, f);
        match f(m as int) {
            Some(x) => {
                assert(kept(n, f) =~= kept(m, f) + seq![x]);
                let idx = prev.push(m as int);
                assert forall|k: int| 0 <= k < idx.len() implies 0 <= #[trigger] idx[k] < n && f(idx[k])
                    == Some(kept(n, f)[k]) by {
                    if k < prev.len() {
                        assert(idx[k] == prev[k]);
                    }
                }
                assert forall|a: int, b: int| 0 <= a < b < idx.len() implies #[trigger] idx[a]
                    < #[trigger] idx[b] by {
                    if b < prev.len() {
                        assert(idx[a] == prev[a] && idx[b] == prev[b]);
                    } else {
                        assert(idx[a] == prev[a]);
                    }
                }
                idx
            },
            None => {
                assert(kept(n, f) =~= kept(m, f));
                prev
            },
        }
    }
}

/// Record `k` describes interface `idx[k]` as read, for every `k`, and the interface
/// indices increase with `k`.
pub open spec fn records_read_in_order<T>(
    recs: Seq<NetworkRecord<T>>,
    s: MonitorState<T>,
    stats: Seq<Option<InterfaceStats>>,
    default_interface: Option<String>,
    idx: Seq<int>,
) -> bool {
    &&& idx.len() == recs.len()
    &&& forall|k: int|
        0 <= k < recs.len() ==> record_reads(#[trigger] recs[k], s, stats, default_interface, idx[k])
    &&& forall|a: int, b: int| 0 <= a < b < idx.len() ==> #[trigger] idx[a] < #[trigger] idx[b]
}

/// The network records come in the order of the interfaces they describe.
pub proof fn lemma_network_records_in_order<T>(
    s: MonitorState<T>,
    stats: Seq<Option<InterfaceStats>>,
    default_interface: Option<String>,
)
    ensures
        exists|idx: Seq<int>|
            records_read_in_order(
                expected_network_records(s, stats, default_interface),
                s,
                stats,
                default_interface,
                idx,
            ),
{
    let f = |j: int| crate::monitor::network_record_at(s, stats, default_interface, j);
    let n = s.interfaces.len();
    let idx = lemma_filter_map_order(n, f);
    let r = expected_network_records(s, stats, default_interface);
    assert(r == kept(n, f));
    assert forall|k: int| 0 <= k < r.len() implies record_reads(
        #[trigger] r[k],
        s,
        stats,
        default_interface,
        idx[k],
    ) by {
        let j = idx[k];
        assert(f(j) == Some(r[k]));
        assert(r[k].ips_v4 == texts((stats[j]->0).ips_v4@));
    }
    assert(records_read_in_order(r, s, stats, default_interface, idx));
}

/// The window at a tracked place, or nothing past the last one.
pub proof fn lemma_window_or_empty<T>(ws: Seq<Seq<T>>, i: int)
    ensures
        0 <= i < ws.len() ==> window_or_empty(ws, i) == ws[i],
        !(0 <= i < ws.len()) ==> window_or_empty(ws, i).len() == 0,
{
}

/// A filled window holds `n` copies of its sample.
pub proof fn lemma_filled<T>(n: nat, fill: T)
    ensures
        filled(n, fill).len() == n,
        forall|i: int| 0 <= i < n ==> #[trigger] filled(n, fill)[i] == fill,
{
}

/// A GPU record: its name is the name read, or `GPU <index>`; where the GPU has
/// windows, its histories are copies of them and its utilisation is the newest
/// utilisation sample (or `zero` for an empty window); where it has none, both
/// histories are empty and its utilisation is `zero`. Its memory figures are as read.
pub proof fn lemma_gpu_record<T>(d: GpuData<T>, dev: GpuDevice<T>, s: MonitorState<T>)
    requires
        gpu_record_matches(d, dev, s),
    ensures
        dev.name is Some ==> d.name@ == dev.name->0@,
        dev.name is None ==> d.name@ == seq!['G', 'P', 'U', ' '] + decimal_text(dev.index as nat),
        d.mem_used_mb == dev.mem_used_mb,
        d.mem_total_mb == dev.mem_total_mb,
        (dev.index as int) < s.gpu_util.len() ==> d.util_history@ == s.gpu_util[dev.index as int],
        (dev.index as int) < s.gpu_mem.len() ==> d.mem_history@ == s.gpu_mem[dev.index as int],
        (dev.index as int) >= s.gpu_util.len() ==> d.util_history@.len() == 0 && d.util == s.zero,
        (dev.index as int) >= s.gpu_mem.len() ==> d.mem_history@.len() == 0,
        (dev.index as int) < s.gpu_util.len() && d.util_history@.len() > 0 ==> d.util
            == d.util_history@[d.util_history@.len() - 1],
        (dev.index as int) < s.gpu_util.len() && d.util_history@.len() == 0 ==> d.util == s.zero,
{
}

} // verus!
