//! The monitor's state: one sample window per core, one for memory, two per GPU
//! (utilisation and memory) and one per network interface, all spanning sixty
//! seconds at the current poll rate, and the records handed to the UI.

use std::collections::VecDeque;
use vstd::prelude::*;
use vstd::string::*;
use crate::names::{sort_names, sorted_texts, texts};
use crate::text::{decimal_text, labelled};
use crate::host::{describe_host, describes_host, HostFacts};
use crate::window::{
    all_of_len, filled, filled_window, filled_windows, resize_each, resize_window, resize_windows,
    resized, slid, slide, window_to_vec, windows_view,
};

verus! {

/// Number of samples that span sixty seconds when polling every `refresh_rate_ms`
/// milliseconds (at least one).
pub open spec fn history_len(refresh_rate_ms: u64) -> nat {
    if 60000int / (refresh_rate_ms as int) >= 1 {
        (60000int / (refresh_rate_ms as int)) as nat
    } else {
        1
    }
}

/// The window length for a poll interval: `max(60_000 / refresh_rate_ms, 1)`.
pub fn history_len_for_rate(refresh_rate_ms: u64) -> (n: usize)
    requires
        refresh_rate_ms > 0,
    ensures
        n as nat == history_len(refresh_rate_ms),
        n >= 1,
{
    let q: u64 = 60000 / refresh_rate_ms;
    if q >= 1 {
        q as usize
    } else {
        1
    }
}

/// What the monitor holds, as mathematical values.
pub struct MonitorState<T> {
    /// One window per core.
    pub cpu: Seq<Seq<T>>,
    /// Memory use.
    pub mem: Seq<T>,
    /// GPU utilisation, one window per GPU.
    pub gpu_util: Seq<Seq<T>>,
    /// GPU memory use, one window per GPU.
    pub gpu_mem: Seq<Seq<T>>,
    /// Received traffic, one window per network interface, in the order of `interfaces`.
    pub net: Seq<Seq<T>>,
    /// Network interface names, sorted.
    pub interfaces: Seq<Seq<char>>,
    /// Length of every window.
    pub max_history: nat,
    /// The sample that fills new windows.
    pub zero: T,
}

impl<T> MonitorState<T> {
    /// The monitor's invariant: every window holds `max_history` (at least one)
    /// samples, the two GPU rows have one window per GPU each, the network row has one
    /// window per interface, and the interface names are sorted.
    pub open spec fn well_formed(self) -> bool {
        &&& self.max_history >= 1
        &&& all_of_len(self.cpu, self.max_history)
        &&& self.mem.len() == self.max_history
        &&& all_of_len(self.gpu_util, self.max_history)
        &&& all_of_len(self.gpu_mem, self.max_history)
        &&& all_of_len(self.net, self.max_history)
        &&& self.gpu_util.len() == self.gpu_mem.len()
        &&& self.net.len() == self.interfaces.len()
        &&& sorted_texts(self.interfaces)
    }
}

/// Every window of the row cut or padded with `fill` to `n` samples.
pub open spec fn each_resized<T>(ws: Seq<Seq<T>>, n: nat, fill: T) -> Seq<Seq<T>> {
    Seq::new(ws.len(), |i: int| resized(ws[i], n, fill))
}

/// The state after the poll interval changes to `refresh_rate_ms`: every window is cut
/// or padded at its back to the new length.
pub open spec fn rate_changed<T>(s: MonitorState<T>, refresh_rate_ms: u64) -> MonitorState<T> {
    let n = history_len(refresh_rate_ms);
    MonitorState {
        cpu: each_resized(s.cpu, n, s.zero),
        mem: resized(s.mem, n, s.zero),
        gpu_util: each_resized(s.gpu_util, n, s.zero),
        gpu_mem: each_resized(s.gpu_mem, n, s.zero),
        net: each_resized(s.net, n, s.zero),
        max_history: n,
        ..s
    }
}

/// At a poll interval of at most a minute, the windows hold as many samples as fit
/// in sixty seconds: `n * ms <= 60000 < (n + 1) * ms`.
pub proof fn lemma_history_spans_minute(ms: u64)
    requires
        0 < ms <= 60000,
    ensures
        history_len(ms) * ms <= 60000 < (history_len(ms) + 1) * ms,
{
    let q = 60000int / (ms as int);
    assert(q >= 1 && q * ms <= 60000 < (q + 1) * ms) by (nonlinear_arith)
        requires
            q == 60000int / (ms as int),
            0 < ms <= 60000,
    ;
}

/// At a poll interval longer than a minute, the windows hold a single sample.
pub proof fn lemma_history_one_sample(ms: u64)
    requires
        ms > 60000,
    ensures
        history_len(ms) == 1,
{
    assert(60000int / (ms as int) == 0) by (nonlinear_arith)
        requires
            ms > 60000,
    ;
}

/// Changing the poll interval keeps the invariant, leaves every window holding
/// `history_len(ms)` samples, and keeps the interfaces and the number of windows.
pub proof fn lemma_rate_changed_well_formed<T>(s: MonitorState<T>, ms: u64)
    requires
        s.well_formed(),
        ms > 0,
    ensures
        rate_changed(s, ms).well_formed(),
        rate_changed(s, ms).max_history == history_len(ms),
        rate_changed(s, ms).mem.len() == history_len(ms),
        all_of_len(rate_changed(s, ms).cpu, history_len(ms)),
        all_of_len(rate_changed(s, ms).net, history_len(ms)),
        rate_changed(s, ms).interfaces == s.interfaces,
        rate_changed(s, ms).cpu.len() == s.cpu.len(),
        rate_changed(s, ms).gpu_util.len() == s.gpu_util.len(),
        rate_changed(s, ms).net.len() == s.net.len(),
{
    let n = history_len(ms);
    let r = rate_changed(s, ms);
    assert forall|i: int| 0 <= i < r.cpu.len() implies (#[trigger] r.cpu[i]).len() == n by {
        assert(r.cpu[i] == resized(s.cpu[i], n, s.zero));
    }
    assert forall|i: int| 0 <= i < r.gpu_util.len() implies (#[trigger] r.gpu_util[i]).len() == n by {
        assert(r.gpu_util[i] == resized(s.gpu_util[i], n, s.zero));
    }
    assert forall|i: int| 0 <= i < r.gpu_mem.len() implies (#[trigger] r.gpu_mem[i]).len() == n by {
        assert(r.gpu_mem[i] == resized(s.gpu_mem[i], n, s.zero));
    }
    assert forall|i: int| 0 <= i < r.net.len() implies (#[trigger] r.net[i]).len() == n by {
        assert(r.net[i] == resized(s.net[i], n, s.zero));
    }
}

/// A row brought to one window per sample (new windows filled with `zero`), then
/// each window slid by its sample.
pub open spec fn row_slid<T>(ws: Seq<Seq<T>>, samples: Seq<T>, n: nat, zero: T) -> Seq<Seq<T>> {
    let base = resized(ws, samples.len(), filled(n, zero));
    Seq::new(base.len(), |i: int| slid(base[i], samples[i]))
}

/// A row brought to one window per reading; window `i` slides by the reading's
/// `pick` part where reading `i` is present and stays as it is otherwise.
pub open spec fn row_slid_where_read<T>(
    ws: Seq<Seq<T>>,
    readings: Seq<Option<(T, T)>>,
    first: bool,
    n: nat,
    zero: T,
) -> Seq<Seq<T>> {
    let base = resized(ws, readings.len(), filled(n, zero));
    Seq::new(
        base.len(),
        |i: int|
            match readings[i] {
                Some(r) => slid(base[i], if first { r.0 } else { r.1 }),
                None => base[i],
            },
    )
}

/// The network row with window `i` slid by reading `i` where that reading is present.
pub open spec fn net_slid<T>(ws: Seq<Seq<T>>, readings: Seq<Option<T>>) -> Seq<Seq<T>> {
    Seq::new(
        ws.len(),
        |i: int|
            if i < readings.len() && readings[i] is Some {
                slid(ws[i], readings[i]->0)
            } else {
                ws[i]
            },
    )
}

/// The GPU readings of one poll as values: `None` where the device count could not be
/// read, else one entry per device index, `None` where the device could not be opened.
pub open spec fn gpu_readings_view<T>(gpu: Option<Vec<Option<(T, T)>>>) -> Option<Seq<Option<(T, T)>>> {
    match gpu {
        Some(v) => Some(v@),
        None => None,
    }
}

/// The state after one poll.
pub open spec fn refreshed<T>(
    s: MonitorState<T>,
    cpu_usage: Seq<T>,
    mem_percent: T,
    gpu: Option<Seq<Option<(T, T)>>>,
    net_rx: Seq<Option<T>>,
) -> MonitorState<T> {
    MonitorState {
        cpu: row_slid(s.cpu, cpu_usage, s.max_history, s.zero),
        mem: slid(s.mem, mem_percent),
        gpu_util: match gpu {
            Some(rs) => row_slid_where_read(s.gpu_util, rs, true, s.max_history, s.zero),
            None => s.gpu_util,
        },
        gpu_mem: match gpu {
            Some(rs) => row_slid_where_read(s.gpu_mem, rs, false, s.max_history, s.zero),
            None => s.gpu_mem,
        },
        net: net_slid(s.net, net_rx),
        ..s
    }
}

/// The window at `i`, or an empty sequence where there is none.
pub open spec fn window_or_empty<T>(ws: Seq<Seq<T>>, i: int) -> Seq<T> {
    if 0 <= i < ws.len() {
        ws[i]
    } else {
        Seq::empty()
    }
}

/// What is read from one GPU that could be opened.
pub struct GpuDevice<T> {
    /// The device index it was opened by.
    pub index: u32,
    /// Its name, where that could be read.
    pub name: Option<String>,
    /// Memory in use, in MiB.
    pub mem_used_mb: T,
    /// Total memory, in MiB.
    pub mem_total_mb: T,
}

/// Holds data for a GPU.
pub struct GpuData<T> {
    pub name: String,
    pub util: T,
    pub mem_used_mb: T,
    pub mem_total_mb: T,
    pub util_history: Vec<T>,
    pub mem_history: Vec<T>,
}

/// Holds data for a single CPU core.
pub struct CoreData<T> {
    pub usage: T,
    pub history: Vec<T>,
}

/// `GPU `, the start of the name given to a GPU whose name cannot be read.
pub open spec fn gpu_fallback_prefix() -> Seq<char> {
    seq!['G', 'P', 'U', ' ']
}

/// A device's name, or `prefix` and its index where the name could not be read.
pub open spec fn device_name(name: Option<String>, index: u32, prefix: Seq<char>) -> Seq<char> {
    match name {
        Some(n) => n@,
        None => prefix + decimal_text(index as nat),
    }
}

/// The newest sample of the window at `i`, or `zero` where there is none.
pub open spec fn latest_or<T>(ws: Seq<Seq<T>>, i: int, zero: T) -> T {
    if 0 <= i < ws.len() && ws[i].len() > 0 {
        ws[i].last()
    } else {
        zero
    }
}

/// The record for a device, built from what was read of it and the monitor's windows.
pub open spec fn gpu_record_matches<T>(d: GpuData<T>, dev: GpuDevice<T>, s: MonitorState<T>) -> bool {
    &&& d.name@ == device_name(dev.name, dev.index, gpu_fallback_prefix())
    &&& d.util == latest_or(s.gpu_util, dev.index as int, s.zero)
    &&& d.mem_used_mb == dev.mem_used_mb
    &&& d.mem_total_mb == dev.mem_total_mb
    &&& d.util_history@ == window_or_empty(s.gpu_util, dev.index as int)
    &&& d.mem_history@ == window_or_empty(s.gpu_mem, dev.index as int)
}

/// What is read from one network interface.
pub struct InterfaceStats {
    /// Bytes received since the previous poll.
    pub rx_bytes: u64,
    /// Bytes sent since the previous poll.
    pub tx_bytes: u64,
    /// Bytes received in all.
    pub total_rx_bytes: u64,
    /// Bytes sent in all.
    pub total_tx_bytes: u64,
    /// IPv4 addresses, as text.
    pub ips_v4: Vec<String>,
}

/// Holds data for a network interface.
pub struct NetworkData<T> {
    pub name: String,
    pub rx_bytes: u64,
    pub tx_bytes: u64,
    pub total_rx_bytes: u64,
    pub total_tx_bytes: u64,
    pub history: Vec<T>,
    pub ips_v4: Vec<String>,
    pub is_default: bool,
}

/// A network record as values.
pub struct NetworkRecord<T> {
    pub name: Seq<char>,
    pub rx_bytes: u64,
    pub tx_bytes: u64,
    pub total_rx_bytes: u64,
    pub total_tx_bytes: u64,
    pub history: Seq<T>,
    pub ips_v4: Seq<Seq<char>>,
    pub is_default: bool,
}

/// The values of a sequence of network records.
pub open spec fn network_records<T>(v: Seq<NetworkData<T>>) -> Seq<NetworkRecord<T>> {
    Seq::new(
        v.len(),
        |k: int|
            NetworkRecord {
                name: v[k].name@,
                rx_bytes: v[k].rx_bytes,
                tx_bytes: v[k].tx_bytes,
                total_rx_bytes: v[k].total_rx_bytes,
                total_tx_bytes: v[k].total_tx_bytes,
                history: v[k].history@,
                ips_v4: texts(v[k].ips_v4@),
                is_default: v[k].is_default,
            },
    )
}

/// The record for tracked interface `j`, where its reading is present.
pub open spec fn network_record_at<T>(
    s: MonitorState<T>,
    stats: Seq<Option<InterfaceStats>>,
    default_interface: Option<String>,
    j: int,
) -> Option<NetworkRecord<T>> {
    if 0 <= j < stats.len() && stats[j] is Some {
        let st = stats[j]->0;
        Some(
            NetworkRecord {
                name: s.interfaces[j],
                rx_bytes: st.rx_bytes,
                tx_bytes: st.tx_bytes,
                total_rx_bytes: st.total_rx_bytes,
                total_tx_bytes: st.total_tx_bytes,
                history: window_or_empty(s.net, j),
                ips_v4: texts(st.ips_v4@),
                is_default: match default_interface {
                    Some(d) => d@ == s.interfaces[j],
                    None => false,
                },
            },
        )
    } else {
        None
    }
}

/// The records for the tracked interfaces whose readings are present, in order.
pub open spec fn expected_network_records<T>(
    s: MonitorState<T>,
    stats: Seq<Option<InterfaceStats>>,
    default_interface: Option<String>,
) -> Seq<NetworkRecord<T>> {
    Seq::new(s.interfaces.len(), |j: int| j).filter_map(
        |j: int| network_record_at(s, stats, default_interface, j),
    )
}

/// A poll keeps the invariant: every window keeps `max_history` samples, there is one
/// core window per usage sample, the memory window receives the new sample last, and
/// the interfaces stay as they were.
pub proof fn lemma_refreshed_well_formed<T>(
    s: MonitorState<T>,
    cpu_usage: Seq<T>,
    mem_percent: T,
    gpu: Option<Seq<Option<(T, T)>>>,
    net_rx: Seq<Option<T>>,
)
    requires
        s.well_formed(),
    ensures
        refreshed(s, cpu_usage, mem_percent, gpu, net_rx).well_formed(),
        refreshed(s, cpu_usage, mem_percent, gpu, net_rx).max_history == s.max_history,
        refreshed(s, cpu_usage, mem_percent, gpu, net_rx).cpu.len() == cpu_usage.len(),
        refreshed(s, cpu_usage, mem_percent, gpu, net_rx).mem.len() == s.mem.len(),
        refreshed(s, cpu_usage, mem_percent, gpu, net_rx).mem.last() == mem_percent,
        refreshed(s, cpu_usage, mem_percent, gpu, net_rx).interfaces == s.interfaces,
        refreshed(s, cpu_usage, mem_percent, gpu, net_rx).net.len() == s.net.len(),
{
    lemma_row_slid_len(s.cpu, cpu_usage, s.max_history, s.zero);
    match gpu {
        Some(rs) => {
            lemma_row_slid_where_read_len(s.gpu_util, rs, true, s.max_history, s.zero);
            lemma_row_slid_where_read_len(s.gpu_mem, rs, false, s.max_history, s.zero);
        },
        None => {},
    }
    lemma_net_slid_len(s.net, net_rx, s.max_history);
}

/// Sliding sample windows for graphs of CPU, memory, GPU and network use.
///
/// `T` is the sample type; the monitor only stores and moves samples.
pub struct SystemMonitor<T> {
    cpu_history: Vec<VecDeque<T>>,
    mem_history: VecDeque<T>,
    gpu_util_history: Vec<VecDeque<T>>,
    gpu_mem_history: Vec<VecDeque<T>>,
    net_history: Vec<VecDeque<T>>,
    interface_names: Vec<String>,
    max_history: usize,
    zero: T,
}

impl<T> View for SystemMonitor<T> {
    type V = MonitorState<T>;

    closed spec fn view(&self) -> MonitorState<T> {
        MonitorState {
            cpu: windows_view(self.cpu_history@),
            mem: self.mem_history@,
            gpu_util: windows_view(self.gpu_util_history@),
            gpu_mem: windows_view(self.gpu_mem_history@),
            net: windows_view(self.net_history@),
            interfaces: texts(self.interface_names@),
            max_history: self.max_history as nat,
            zero: self.zero,
        }
    }
}

impl<T: Copy> SystemMonitor<T> {
    /// The monitor's invariant holds.
    pub open spec fn wf(&self) -> bool {
        self@.well_formed()
    }

    /// A monitor polled every `refresh_rate_ms` milliseconds, for `cpu_count` cores,
    /// `gpu_count` GPUs and the given network interfaces (kept in sorted order); every
    /// window holds sixty seconds' worth of `zero`.
    pub fn new(
        refresh_rate_ms: u64,
        cpu_count: usize,
        gpu_count: usize,
        interface_names: &Vec<String>,
        zero: T,
    ) -> (m: Self)
        requires
            refresh_rate_ms > 0,
        ensures
            m.wf(),
            m@.max_history == history_len(refresh_rate_ms),
            m@.zero == zero,
            m@.cpu == filled(cpu_count as nat, filled(m@.max_history, zero)),
            m@.mem == filled(m@.max_history, zero),
            m@.gpu_util == filled(gpu_count as nat, filled(m@.max_history, zero)),
            m@.gpu_mem == filled(gpu_count as nat, filled(m@.max_history, zero)),
            m@.net == filled(interface_names@.len(), filled(m@.max_history, zero)),
            sorted_texts(m@.interfaces),
            m@.interfaces.to_multiset() == texts(interface_names@).to_multiset(),
    {
        let max_history = history_len_for_rate(refresh_rate_ms);
        let names = sort_names(interface_names);
        proof {
            vstd::seq_lib::to_multiset_len(texts(names@));
            vstd::seq_lib::to_multiset_len(texts(interface_names@));
        }
        let m = SystemMonitor {
            cpu_history: filled_windows(cpu_count, max_history, zero),
            mem_history: filled_window(max_history, zero),
            gpu_util_history: filled_windows(gpu_count, max_history, zero),
            gpu_mem_history: filled_windows(gpu_count, max_history, zero),
            net_history: filled_windows(names.len(), max_history, zero),
            interface_names: names,
            max_history,
            zero,
        };
        m
    }

    /// Changes the poll interval and cuts or pads every window at its back, so that
    /// each window again spans sixty seconds.
    pub fn set_refresh_rate(&mut self, ms: u64)
        requires
            old(self).wf(),
            ms > 0,
        ensures
            final(self).wf(),
            final(self)@ == rate_changed(old(self)@, ms),
    {
        let n = history_len_for_rate(ms);
        self.max_history = n;
        let zero = self.zero;
        resize_each(&mut self.cpu_history, n, zero);
        resize_window(&mut self.mem_history, n, zero);
        resize_each(&mut self.gpu_util_history, n, zero);
        resize_each(&mut self.gpu_mem_history, n, zero);
        resize_each(&mut self.net_history, n, zero);
        assert(self@.cpu =~= each_resized(old(self)@.cpu, n as nat, zero));
        assert(self@.gpu_util =~= each_resized(old(self)@.gpu_util, n as nat, zero));
        assert(self@.gpu_mem =~= each_resized(old(self)@.gpu_mem, n as nat, zero));
        assert(self@.net =~= each_resized(old(self)@.net, n as nat, zero));
    }

    /// Takes one poll's readings: a usage sample per core (cores appearing or
    /// disappearing add fresh windows or drop the last ones), the memory use, the GPU
    /// readings (if the device count could be read) and the received traffic per
    /// interface (if that interface was found). Each window that gets a reading drops
    /// its oldest sample and appends the reading.
    pub fn refresh(
        &mut self,
        cpu_usage: &Vec<T>,
        mem_percent: T,
        gpu: &Option<Vec<Option<(T, T)>>>,
        net_rx: &Vec<Option<T>>,
    )
        requires
            old(self).wf(),
        ensures
            final(self).wf(),
            final(self)@ == refreshed(old(self)@, cpu_usage@, mem_percent, gpu_readings_view(*gpu), net_rx@),
    {
        let n = self.max_history;
        let zero = self.zero;
        let ghost s0 = self@;
        if cpu_usage.len() != self.cpu_history.len() {
            resize_windows(&mut self.cpu_history, cpu_usage.len(), n, zero);
        }
        proof {
            assert(windows_view(self.cpu_history@) =~= resized(s0.cpu, cpu_usage@.len(), filled(n as nat, zero)));
        }
        slide_row(&mut self.cpu_history, cpu_usage);
        slide(&mut self.mem_history, mem_percent);
        match gpu {
            Some(readings) => {
                if readings.len() != self.gpu_util_history.len() {
                    resize_windows(&mut self.gpu_util_history, readings.len(), n, zero);
                    resize_windows(&mut self.gpu_mem_history, readings.len(), n, zero);
                }
                proof {
                    assert(windows_view(self.gpu_util_history@) =~= resized(s0.gpu_util, readings@.len(), filled(n as nat, zero)));
                    assert(windows_view(self.gpu_mem_history@) =~= resized(s0.gpu_mem, readings@.len(), filled(n as nat, zero)));
                }
                slide_row_where_read(&mut self.gpu_util_history, readings, true);
                slide_row_where_read(&mut self.gpu_mem_history, readings, false);
            },
            None => {},
        }
        slide_net(&mut self.net_history, net_rx);
        proof {
            let s1 = self@;
            let e = refreshed(s0, cpu_usage@, mem_percent, gpu_readings_view(*gpu), net_rx@);
            assert(s1.cpu =~= e.cpu);
            assert(s1.gpu_util =~= e.gpu_util);
            assert(s1.gpu_mem =~= e.gpu_mem);
            assert(s1.net =~= e.net);
            lemma_refreshed_well_formed(s0, cpu_usage@, mem_percent, gpu_readings_view(*gpu), net_rx@);
        }
    }

    /// The number of cores being tracked.
    pub fn get_cpu_count(&self) -> (n: usize)
        ensures
            n == self@.cpu.len(),
    {
        self.cpu_history.len()
    }

    /// The samples of core `index`, oldest first; empty for an index past the last core.
    pub fn get_cpu_history(&self, index: usize) -> (v: Vec<T>)
        ensures
            v@ == window_or_empty(self@.cpu, index as int),
    {
        if index < self.cpu_history.len() {
            window_to_vec(&self.cpu_history[index])
        } else {
            Vec::new()
        }
    }

    /// The memory samples, oldest first.
    pub fn get_memory_history(&self) -> (v: Vec<T>)
        ensures
            v@ == self@.mem,
    {
        window_to_vec(&self.mem_history)
    }

    /// The GPU utilisation samples of GPU `index`, oldest first; empty past the last GPU.
    pub fn get_gpu_util_history(&self, index: usize) -> (v: Vec<T>)
        ensures
            v@ == window_or_empty(self@.gpu_util, index as int),
    {
        if index < self.gpu_util_history.len() {
            window_to_vec(&self.gpu_util_history[index])
        } else {
            Vec::new()
        }
    }

    /// The GPU memory samples of GPU `index`, oldest first; empty past the last GPU.
    pub fn get_gpu_mem_history(&self, index: usize) -> (v: Vec<T>)
        ensures
            v@ == window_or_empty(self@.gpu_mem, index as int),
    {
        if index < self.gpu_mem_history.len() {
            window_to_vec(&self.gpu_mem_history[index])
        } else {
            Vec::new()
        }
    }

    /// The received-traffic samples of interface `index` (in sorted name order),
    /// oldest first; empty past the last interface.
    pub fn get_net_history(&self, index: usize) -> (v: Vec<T>)
        ensures
            v@ == window_or_empty(self@.net, index as int),
    {
        if index < self.net_history.len() {
            window_to_vec(&self.net_history[index])
        } else {
            Vec::new()
        }
    }

    /// The host description, with the number of cores being tracked as its core
    /// count (the same number [`Self::get_cpu_count`] gives).
    pub fn get_static_info(&self, facts: &HostFacts) -> (info: (
        String,
        String,
        String,
        String,
        usize,
        String,
        String,
        String,
        String,
    ))
        ensures
            describes_host(info, *facts, self@.cpu.len()),
    {
        describe_host(facts, self.cpu_history.len())
    }

    /// The number of samples every window holds.
    pub fn max_history(&self) -> (n: usize)
        ensures
            n == self@.max_history,
    {
        self.max_history
    }

    /// The tracked network interface names, sorted; network window `i` belongs to
    /// name `i`.
    pub fn interface_names(&self) -> (names: &Vec<String>)
        ensures
            texts(names@) == self@.interfaces,
    {
        &self.interface_names
    }

    /// One record per opened GPU, in the order given: its name (or `GPU <index>` where
    /// the name could not be read), its latest utilisation sample (or `zero` where it
    /// has no window), its memory figures as read, and copies of its two windows
    /// (empty where it has none).
    pub fn get_gpu_data(&self, devices: &Vec<GpuDevice<T>>) -> (data: Vec<GpuData<T>>)
        ensures
            data@.len() == devices@.len(),
            forall|k: int|
                0 <= k < devices@.len() ==> gpu_record_matches(
                    #[trigger] data@[k],
                    devices@[k],
                    self@,
                ),
    {
        let mut data: Vec<GpuData<T>> = Vec::new();
        let mut k: usize = 0;
        while k < devices.len()
            invariant
                k <= devices@.len(),
                data@.len() == k,
                forall|j: int| 0 <= j < k ==> gpu_record_matches(#[trigger] data@[j], devices@[j], self@),
            decreases devices@.len() - k,
        {
            let dev = &devices[k];
            let i = dev.index as usize;
            let name = match &dev.name {
                Some(n) => n.clone(),
                None => {
                    let prefix = "GPU ";
                    proof {
                        reveal_strlit("GPU ");
                        assert(prefix@ =~= gpu_fallback_prefix());
                    }
                    labelled(prefix, dev.index as u64)
                },
            };
            let util = if i < self.gpu_util_history.len() && self.gpu_util_history[i].len() > 0 {
                let w = &self.gpu_util_history[i];
                w[w.len() - 1]
            } else {
                self.zero
            };
            let util_history = if i < self.gpu_util_history.len() {
                window_to_vec(&self.gpu_util_history[i])
            } else {
                Vec::new()
            };
            let mem_history = if i < self.gpu_mem_history.len() {
                window_to_vec(&self.gpu_mem_history[i])
            } else {
                Vec::new()
            };
            data.push(
                GpuData {
                    name,
                    util,
                    mem_used_mb: dev.mem_used_mb,
                    mem_total_mb: dev.mem_total_mb,
                    util_history,
                    mem_history,
                },
            );
            k = k + 1;
        }
        data
    }

    /// One record per tracked interface that was found, in sorted name order: its
    /// name, traffic counters and IPv4 addresses as read, a copy of its window, and
    /// whether it is the default interface.
    pub fn get_network_data(
        &self,
        stats: &Vec<Option<InterfaceStats>>,
        default_interface: &Option<String>,
    ) -> (data: Vec<NetworkData<T>>)
        ensures
            network_records(data@) == expected_network_records(self@, stats@, *default_interface),
    {
        let mut data: Vec<NetworkData<T>> = Vec::new();
        let mut i: usize = 0;
        let ghost f = |j: int| network_record_at(self@, stats@, *default_interface, j);
        while i < self.interface_names.len()
            invariant
                i <= self@.interfaces.len(),
                f == (|j: int| network_record_at(self@, stats@, *default_interface, j)),
                network_records(data@) == Seq::new(i as nat, |j: int| j).filter_map(f),
            decreases self@.interfaces.len() - i,
        {
            let ghost before = data@;
            if i < stats.len() {
                match &stats[i] {
                    Some(st) => {
                        let name = self.interface_names[i].clone();
                        let is_default = match default_interface {
                            Some(d) => *d == name,
                            None => false,
                        };
                        let history = if i < self.net_history.len() {
                            window_to_vec(&self.net_history[i])
                        } else {
                            Vec::new()
                        };
                        let rec = NetworkData {
                            name,
                            rx_bytes: st.rx_bytes,
                            tx_bytes: st.tx_bytes,
                            total_rx_bytes: st.total_rx_bytes,
                            total_tx_bytes: st.total_tx_bytes,
                            history,
                            ips_v4: copy_strings(&st.ips_v4),
                            is_default,
                        };
                        data.push(rec);
                    },
                    None => {},
                }
            }
            proof {
                let s_next = Seq::new((i + 1) as nat, |j: int| j);
                assert(s_next.drop_last() =~= Seq::new(i as nat, |j: int| j));
                assert(s_next.last() == i as int);
                assert(network_records(data@) =~= s_next.filter_map(f));
            }
            i = i + 1;
        }
        data
    }
}

/// A copy of a list of strings.
fn copy_strings(v: &Vec<String>) -> (c: Vec<String>)
    ensures
        c@ == v@,
{
    let mut c: Vec<String> = Vec::new();
    let mut k: usize = 0;
    while k < v.len()
        invariant
            k <= v@.len(),
            c@ == v@.take(k as int),
        decreases v@.len() - k,
    {
        c.push(v[k].clone());
        k = k + 1;
        assert(c@ =~= v@.take(k as int));
    }
    assert(v@.take(v@.len() as int) =~= v@);
    c
}

/// Slides window `i` of the row by sample `i`.
fn slide_row<T: Copy>(ws: &mut Vec<VecDeque<T>>, samples: &Vec<T>)
    requires
        old(ws)@.len() == samples@.len(),
    ensures
        windows_view(final(ws)@) == Seq::new(
            samples@.len(),
            |i: int| slid(windows_view(old(ws)@)[i], samples@[i]),
        ),
{
    let mut k: usize = 0;
    while k < samples.len()
        invariant
            k <= samples@.len(),
            ws@.len() == samples@.len(),
            forall|i: int| 0 <= i < k ==> #[trigger] ws@[i]@ == slid(old(ws)@[i]@, samples@[i]),
            forall|i: int| k <= i < ws@.len() ==> (#[trigger] ws@[i]) == old(ws)@[i],
        decreases samples@.len() - k,
    {
        let x: T = samples[k];
        slide(&mut ws[k], x);
        k = k + 1;
    }
    assert(windows_view(ws@) =~= Seq::new(
        samples@.len(),
        |i: int| slid(windows_view(old(ws)@)[i], samples@[i]),
    ));
}

/// Slides window `i` of the row by the chosen part of reading `i`, where present.
fn slide_row_where_read<T: Copy>(ws: &mut Vec<VecDeque<T>>, readings: &Vec<Option<(T, T)>>, first: bool)
    requires
        old(ws)@.len() == readings@.len(),
    ensures
        windows_view(final(ws)@) == Seq::new(
            readings@.len(),
            |i: int|
                match readings@[i] {
                    Some(r) => slid(windows_view(old(ws)@)[i], if first { r.0 } else { r.1 }),
                    None => windows_view(old(ws)@)[i],
                },
        ),
{
    let mut k: usize = 0;
    while k < readings.len()
        invariant
            k <= readings@.len(),
            ws@.len() == readings@.len(),
            forall|i: int| 0 <= i < k ==> #[trigger] ws@[i]@ == match readings@[i] {
                Some(r) => slid(old(ws)@[i]@, if first { r.0 } else { r.1 }),
                None => old(ws)@[i]@,
            },
            forall|i: int| k <= i < ws@.len() ==> (#[trigger] ws@[i]) == old(ws)@[i],
        decreases readings@.len() - k,
    {
        match readings[k] {
            Some(r) => {
                let x: T = if first { r.0 } else { r.1 };
                slide(&mut ws[k], x);
            },
            None => {},
        }
        k = k + 1;
    }
    assert(windows_view(ws@) =~= Seq::new(
        readings@.len(),
        |i: int|
            match readings@[i] {
                Some(r) => slid(windows_view(old(ws)@)[i], if first { r.0 } else { r.1 }),
                None => windows_view(old(ws)@)[i],
            },
    ));
}

/// Slides network window `i` by reading `i`, where present.
fn slide_net<T: Copy>(ws: &mut Vec<VecDeque<T>>, readings: &Vec<Option<T>>)
    ensures
        windows_view(final(ws)@) == net_slid(windows_view(old(ws)@), readings@),
{
    let mut k: usize = 0;
    while k < ws.len()
        invariant
            k <= ws@.len(),
            ws@.len() == old(ws)@.len(),
            forall|i: int| 0 <= i < k ==> #[trigger] ws@[i]@ == (if i < readings@.len() && readings@[i] is Some {
                slid(old(ws)@[i]@, readings@[i]->0)
            } else {
                old(ws)@[i]@
            }),
            forall|i: int| k <= i < ws@.len() ==> (#[trigger] ws@[i]) == old(ws)@[i],
        decreases ws@.len() - k,
    {
        if k < readings.len() {
            match readings[k] {
                Some(x) => {
                    slide(&mut ws[k], x);
                },
                None => {},
            }
        }
        k = k + 1;
    }
    assert(windows_view(ws@) =~= net_slid(windows_view(old(ws)@), readings@));
}

proof fn lemma_resized_windows_len<T>(ws: Seq<Seq<T>>, count: nat, n: nat, zero: T)
    requires
        all_of_len(ws, n),
    ensures
        resized(ws, count, filled(n, zero)).len() == count,
        all_of_len(resized(ws, count, filled(n, zero)), n),
{
    let r = resized(ws, count, filled(n, zero));
    assert forall|i: int| 0 <= i < r.len() implies (#[trigger] r[i]).len() == n by {
        if i < ws.len() {
            assert(r[i] == ws[i]);
        }
    }
}

proof fn lemma_row_slid_len<T>(ws: Seq<Seq<T>>, samples: Seq<T>, n: nat, zero: T)
    requires
        n >= 1,
        all_of_len(ws, n),
    ensures
        row_slid(ws, samples, n, zero).len() == samples.len(),
        all_of_len(row_slid(ws, samples, n, zero), n),
{
    lemma_resized_windows_len(ws, samples.len(), n, zero);
}

proof fn lemma_row_slid_where_read_len<T>(ws: Seq<Seq<T>>, readings: Seq<Option<(T, T)>>, first: bool, n: nat, zero: T)
    requires
        n >= 1,
        all_of_len(ws, n),
    ensures
        row_slid_where_read(ws, readings, first, n, zero).len() == readings.len(),
        all_of_len(row_slid_where_read(ws, readings, first, n, zero), n),
{
    lemma_resized_windows_len(ws, readings.len(), n, zero);
}

proof fn lemma_net_slid_len<T>(ws: Seq<Seq<T>>, readings: Seq<Option<T>>, n: nat)
    requires
        n >= 1,
        all_of_len(ws, n),
    ensures
        net_slid(ws, readings).len() == ws.len(),
        all_of_len(net_slid(ws, readings), n),
{
}

} // verus!
