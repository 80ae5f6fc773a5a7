//! Periodic work of the monitor: when to reload processes, when to take a
//! usage sample, when to drop the confirmation text, and the bounded usage
//! history behind the graphs with the choice of graph per tab.

use vstd::prelude::*;
use std::collections::VecDeque;

verus! {

/// Number of samples each history keeps.
pub const HISTORY_LEN: usize = 45;

/// Milliseconds between two reloads of the process snapshot.
pub const PROCESS_REFRESH_MS: u128 = 3000;

/// Milliseconds between two usage samples.
pub const SAMPLE_INTERVAL_MS: u128 = 1000;

/// Milliseconds the confirmation text stays up.
pub const POPUP_MS: u128 = 2000;

/// A full history covers 45 seconds: `HISTORY_LEN` samples, one every
/// `SAMPLE_INTERVAL_MS`.
pub proof fn lemma_history_spans_45_seconds()
    ensures
        HISTORY_LEN * SAMPLE_INTERVAL_MS == 45000,
{
}

/// `s` after appending `x`, dropping the oldest sample when `HISTORY_LEN`
/// samples are already kept.
pub open spec fn bounded_push<T>(s: Seq<T>, x: T) -> Seq<T> {
    if s.len() >= HISTORY_LEN {
        s.drop_first().push(x)
    } else {
        s.push(x)
    }
}

/// A history never grows past `HISTORY_LEN` samples, its newest sample is
/// the one just recorded, and the samples before it are the previous ones
/// (without the oldest when it was full).
pub proof fn lemma_bounded_push<T>(s: Seq<T>, x: T)
    requires
        s.len() <= HISTORY_LEN,
    ensures
        bounded_push(s, x).len() <= HISTORY_LEN,
        bounded_push(s, x).last() == x,
        bounded_push(s, x).drop_last() == (if s.len() == HISTORY_LEN { s.drop_first() } else { s }),
{
    assert(bounded_push(s, x).drop_last() =~= (if s.len() == HISTORY_LEN { s.drop_first() } else { s }));
}

/// The quantity that the graphs view plots.
#[derive(Clone, Copy, Debug, PartialEq, Eq, Structural)]
pub enum GraphMetric {
    Cpu,
    Memory,
    Swap,
    Network,
}

/// The metric of graph tab `tab`: the four tabs in turn.
pub open spec fn metric_of_tab(tab: nat) -> GraphMetric {
    let t = tab % 4;
    if t == 0 {
        GraphMetric::Cpu
    } else if t == 1 {
        GraphMetric::Memory
    } else if t == 2 {
        GraphMetric::Swap
    } else {
        GraphMetric::Network
    }
}

/// The metric of graph tab `tab`.
pub fn graph_metric(tab: usize) -> (m: GraphMetric)
    ensures
        m == metric_of_tab(tab as nat),
{
    let t = tab % 4;
    if t == 0 {
        GraphMetric::Cpu
    } else if t == 1 {
        GraphMetric::Memory
    } else if t == 2 {
        GraphMetric::Swap
    } else {
        GraphMetric::Network
    }
}

/// Heading of the graph of `m`.
pub open spec fn graph_heading(m: GraphMetric) -> Seq<char> {
    match m {
        GraphMetric::Cpu => " CPU Usage History (45s window)"@,
        GraphMetric::Memory => " Memory Usage History (45s window)"@,
        GraphMetric::Swap => " Swap Usage History (45s window)"@,
        GraphMetric::Network => " Network Throughput History (45s window)"@,
    }
}

/// Heading of the graph of `m`.
pub fn graph_heading_text(m: GraphMetric) -> (r: &'static str)
    ensures
        r@ == graph_heading(m),
{
    match m {
        GraphMetric::Cpu => " CPU Usage History (45s window)",
        GraphMetric::Memory => " Memory Usage History (45s window)",
        GraphMetric::Swap => " Swap Usage History (45s window)",
        GraphMetric::Network => " Network Throughput History (45s window)",
    }
}

/// The last `HISTORY_LEN` samples of CPU, memory and swap usage and of
/// network throughput, oldest first.
pub struct MetricHistory<T> {
    pub cpu: VecDeque<T>,
    pub mem: VecDeque<T>,
    pub swap: VecDeque<T>,
    pub net: VecDeque<T>,
}

fn push_bounded<T>(h: &mut VecDeque<T>, x: T)
    ensures
        final(h)@ == bounded_push(old(h)@, x),
{
    if h.len() >= HISTORY_LEN {
        h.pop_front();
    }
    h.push_back(x);
}

impl<T> MetricHistory<T> {
    /// The samples of metric `m`.
    pub open spec fn samples(&self, m: GraphMetric) -> Seq<T> {
        match m {
            GraphMetric::Cpu => self.cpu@,
            GraphMetric::Memory => self.mem@,
            GraphMetric::Swap => self.swap@,
            GraphMetric::Network => self.net@,
        }
    }

    /// Empty histories.
    pub fn new() -> (r: MetricHistory<T>)
        ensures
            r.cpu@.len() == 0,
            r.mem@.len() == 0,
            r.swap@.len() == 0,
            r.net@.len() == 0,
    {
        MetricHistory { cpu: VecDeque::new(), mem: VecDeque::new(), swap: VecDeque::new(), net: VecDeque::new() }
    }

    /// Appends one sample to each history.
    pub fn record(&mut self, cpu: T, mem: T, swap: T, net: T)
        ensures
            final(self).cpu@ == bounded_push(old(self).cpu@, cpu),
            final(self).mem@ == bounded_push(old(self).mem@, mem),
            final(self).swap@ == bounded_push(old(self).swap@, swap),
            final(self).net@ == bounded_push(old(self).net@, net),
    {
        push_bounded(&mut self.cpu, cpu);
        push_bounded(&mut self.mem, mem);
        push_bounded(&mut self.swap, swap);
        push_bounded(&mut self.net, net);
    }

    /// The history the graphs view shows on tab `tab`.
    pub fn series(&self, tab: usize) -> (r: &VecDeque<T>)
        ensures
            r@ == self.samples(metric_of_tab(tab as nat)),
    {
        match graph_metric(tab) {
            GraphMetric::Cpu => &self.cpu,
            GraphMetric::Memory => &self.mem,
            GraphMetric::Swap => &self.swap,
            GraphMetric::Network => &self.net,
        }
    }
}

/// What is due on one turn of the main loop.
#[derive(Clone, Copy, Debug, PartialEq, Eq, Structural)]
pub struct TickPlan {
    pub reload_processes: bool,
    pub take_sample: bool,
    pub dismiss_popup: bool,
}

/// What is due, given the milliseconds since the last reload, since the last
/// sample, and since the confirmation text appeared (if one is shown).
pub fn plan_tick(since_reload_ms: u128, since_sample_ms: u128, popup_age_ms: Option<u128>) -> (r: TickPlan)
    ensures
        r.reload_processes == (since_reload_ms >= PROCESS_REFRESH_MS),
        r.take_sample == (since_sample_ms >= SAMPLE_INTERVAL_MS),
        r.dismiss_popup == (popup_age_ms matches Some(age) && age >= POPUP_MS),
{
    let dismiss = match popup_age_ms {
        Some(age) => age >= POPUP_MS,
        None => false,
    };
    TickPlan {
        reload_processes: since_reload_ms >= PROCESS_REFRESH_MS,
        take_sample: since_sample_ms >= SAMPLE_INTERVAL_MS,
        dismiss_popup: dismiss,
    }
}

} // verus!
