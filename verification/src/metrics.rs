//! Timing metrics of one message's processing.

use vstd::prelude::*;

use std::time::Instant;

verus! {

/// A point in monotonic time (`std::time::Instant`).
#[verifier::external_type_specification]
#[verifier::external_body]
pub struct ExInstant(Instant);

/// `Instant::now()`. Nothing is stated of it: it is the clock.
#[verifier::external_body]
fn instant_now() -> Instant {
    Instant::now()
}

/// Milliseconds elapsed since `start` (`start.elapsed().as_millis() as u64`).
/// Nothing is stated of it: it is the clock.
#[verifier::external_body]
fn elapsed_millis(start: &Instant) -> u64 {
    start.elapsed().as_millis() as u64
}

/// Sum of a sequence of durations.
pub open spec fn sum_ms(s: Seq<u64>) -> int
    decreases s.len(),
{
    if s.len() == 0 {
        0
    } else {
        sum_ms(s.drop_last()) + s.last()
    }
}

/// Sum of the durations of named executions.
pub open spec fn sum_tool_ms(s: Seq<(String, u64)>) -> int
    decreases s.len(),
{
    if s.len() == 0 {
        0
    } else {
        sum_tool_ms(s.drop_last()) + s.last().1
    }
}

pub proof fn lemma_sum_ms_nonneg(s: Seq<u64>)
    ensures
        sum_ms(s) >= 0,
    decreases s.len(),
{
    if s.len() > 0 {
        lemma_sum_ms_nonneg(s.drop_last());
    }
}

pub proof fn lemma_sum_tool_ms_nonneg(s: Seq<(String, u64)>)
    ensures
        sum_tool_ms(s) >= 0,
    decreases s.len(),
{
    if s.len() > 0 {
        lemma_sum_tool_ms_nonneg(s.drop_last());
    }
}

/// Executions slower than five seconds.
pub open spec fn is_slow(t: (String, u64)) -> bool {
    t.1 > 5000
}

/// What one message's processing is summarised as.
#[derive(Debug, Clone)]
pub struct MetricsSummary {
    pub total_ms: u64,
    pub decision_ms: u64,
    pub llm_calls: usize,
    pub llm_total_ms: u64,
    pub tool_calls: usize,
    pub tool_total_ms: u64,
    pub compressions: u32,
    pub slow_tools: Vec<(String, u64)>,
}

#[derive(Debug)]
pub struct ProcessingMetrics {
    pub start: Instant,
    pub decision_duration_ms: Option<u64>,
    pub llm_calls: Vec<u64>,
    pub tool_executions: Vec<(String, u64)>,
    pub compression_count: u32,
    pub finalized: bool,
}

impl ProcessingMetrics {
    pub fn new() -> (m: Self)
        ensures
            m.decision_duration_ms is None,
            m.llm_calls@.len() == 0,
            m.tool_executions@.len() == 0,
            m.compression_count == 0,
            !m.finalized,
    {
        ProcessingMetrics {
            start: instant_now(),
            decision_duration_ms: None,
            llm_calls: Vec::new(),
            tool_executions: Vec::new(),
            compression_count: 0,
            finalized: false,
        }
    }

    pub fn record_decision(&mut self, duration_ms: u64)
        ensures
            final(self).decision_duration_ms == Some(duration_ms),
            final(self).llm_calls@ == old(self).llm_calls@,
            final(self).tool_executions@ == old(self).tool_executions@,
            final(self).compression_count == old(self).compression_count,
            final(self).finalized == old(self).finalized,
    {
        self.decision_duration_ms = Some(duration_ms);
    }

    pub fn record_llm_call(&mut self, duration_ms: u64)
        ensures
            final(self).llm_calls@ == old(self).llm_calls@.push(duration_ms),
            final(self).decision_duration_ms == old(self).decision_duration_ms,
            final(self).tool_executions@ == old(self).tool_executions@,
            final(self).compression_count == old(self).compression_count,
            final(self).finalized == old(self).finalized,
    {
        self.llm_calls.push(duration_ms);
    }

    pub fn record_tool_execution(&mut self, tool_name: &str, duration_ms: u64)
        ensures
            final(self).tool_executions@.len() == old(self).tool_executions@.len() + 1,
            final(self).tool_executions@.drop_last() == old(self).tool_executions@,
            final(self).tool_executions@.last().0@ == tool_name@,
            final(self).tool_executions@.last().1 == duration_ms,
            final(self).decision_duration_ms == old(self).decision_duration_ms,
            final(self).llm_calls@ == old(self).llm_calls@,
            final(self).compression_count == old(self).compression_count,
            final(self).finalized == old(self).finalized,
    {
        self.tool_executions.push((tool_name.to_owned(), duration_ms));
        assert(self.tool_executions@.drop_last() =~= old(self).tool_executions@);
    }

    pub fn record_compression(&mut self)
        requires
            old(self).compression_count < u32::MAX,
        ensures
            final(self).compression_count == old(self).compression_count + 1,
            final(self).decision_duration_ms == old(self).decision_duration_ms,
            final(self).llm_calls@ == old(self).llm_calls@,
            final(self).tool_executions@ == old(self).tool_executions@,
            final(self).finalized == old(self).finalized,
    {
        self.compression_count = self.compression_count + 1;
    }

    /// Milliseconds since processing started (read from the clock).
    pub fn total_elapsed_ms(&self) -> u64 {
        elapsed_millis(&self.start)
    }

    /// The summary that is logged once per message: `None` after the first
    /// call. The sums must fit in a `u64`.
    pub fn log_summary(&mut self) -> (r: Option<MetricsSummary>)
        requires
            sum_ms(old(self).llm_calls@) <= u64::MAX,
            sum_tool_ms(old(self).tool_executions@) <= u64::MAX,
        ensures
            final(self).finalized,
            final(self).decision_duration_ms == old(self).decision_duration_ms,
            final(self).llm_calls@ == old(self).llm_calls@,
            final(self).tool_executions@ == old(self).tool_executions@,
            final(self).compression_count == old(self).compression_count,
            old(self).finalized ==> r is None,
            !old(self).finalized ==> (r matches Some(s) && {
                &&& s.decision_ms == (match old(self).decision_duration_ms {
                    Some(d) => d,
                    None => 0,
                })
                &&& s.llm_calls == old(self).llm_calls@.len()
                &&& s.llm_total_ms == sum_ms(old(self).llm_calls@)
                &&& s.tool_calls == old(self).tool_executions@.len()
                &&& s.tool_total_ms == sum_tool_ms(old(self).tool_executions@)
                &&& s.compressions == old(self).compression_count
                &&& s.slow_tools@.map_values(|t: (String, u64)| (t.0@, t.1))
                    == old(self).tool_executions@.filter(|t: (String, u64)| is_slow(t)).map_values(
                    |t: (String, u64)| (t.0@, t.1),
                )
            }),
    {
        if self.finalized {
            return None;
        }
        self.finalized = true;
        let total_ms = self.total_elapsed_ms();
        let decision_ms = match self.decision_duration_ms {
            Some(d) => d,
            None => 0,
        };
        let mut llm_total: u64 = 0;
        let mut i: usize = 0;
        while i < self.llm_calls.len()
            invariant
                i <= self.llm_calls.len(),
                sum_ms(self.llm_calls@) <= u64::MAX,
                llm_total == sum_ms(self.llm_calls@.take(i as int)),
            decreases self.llm_calls.len() - i,
        {
            proof {
                assert(self.llm_calls@.take(i + 1).drop_last() =~= self.llm_calls@.take(i as int));
                lemma_sum_prefix_le(self.llm_calls@, i + 1);
            }
            llm_total = llm_total + self.llm_calls[i];
            i = i + 1;
        }
        assert(self.llm_calls@.take(self.llm_calls.len() as int) =~= self.llm_calls@);
        let mut tool_total: u64 = 0;
        let mut slow: Vec<(String, u64)> = Vec::new();
        let ghost tools = self.tool_executions@;
        let mut k: usize = 0;
        while k < self.tool_executions.len()
            invariant
                k <= self.tool_executions.len(),
                tools == self.tool_executions@,
                sum_tool_ms(tools) <= u64::MAX,
                tool_total == sum_tool_ms(tools.take(k as int)),
                slow@.map_values(|t: (String, u64)| (t.0@, t.1)) == tools.take(k as int).filter(
                    |t: (String, u64)| is_slow(t),
                ).map_values(|t: (String, u64)| (t.0@, t.1)),
            decreases self.tool_executions.len() - k,
        {
            proof {
                assert(tools.take(k + 1).drop_last() =~= tools.take(k as int));
                lemma_tool_prefix_le(tools, k + 1);
            }
            let ms = self.tool_executions[k].1;
            tool_total = tool_total + ms;
            let ghost before = slow@;
            if ms > 5000 {
                let name = self.tool_executions[k].0.clone();
                slow.push((name, ms));
                proof {
                    assert(slow@ == before.push(tools[k as int]));
                }
            }
            proof {
                let f = |t: (String, u64)| is_slow(t);
                let g = |t: (String, u64)| (t.0@, t.1);
                assert(tools.take(k + 1) =~= tools.take(k as int).push(tools[k as int]));
                crate::text::lemma_filter_push(tools.take(k as int), f, tools[k as int]);
                if ms > 5000 {
                    assert(before.push(tools[k as int]).map_values(g) =~= before.map_values(g).push(
                        g(tools[k as int]),
                    ));
                    assert(tools.take(k as int).filter(f).push(tools[k as int]).map_values(g)
                        =~= tools.take(k as int).filter(f).map_values(g).push(g(tools[k as int])));
                }
                assert(slow@.map_values(g) =~= tools.take(k + 1).filter(f).map_values(g));
            }
            k = k + 1;
        }
        assert(tools.take(self.tool_executions.len() as int) =~= tools);
        Some(
            MetricsSummary {
                total_ms,
                decision_ms,
                llm_calls: self.llm_calls.len(),
                llm_total_ms: llm_total,
                tool_calls: self.tool_executions.len(),
                tool_total_ms: tool_total,
                compressions: self.compression_count,
                slow_tools: slow,
            },
        )
    }
}

proof fn lemma_sum_prefix_le(s: Seq<u64>, k: int)
    requires
        0 <= k <= s.len(),
    ensures
        sum_ms(s.take(k)) <= sum_ms(s),
    decreases s.len() - k,
{
    if k < s.len() {
        lemma_sum_prefix_le(s, k + 1);
        assert(s.take(k + 1).drop_last() =~= s.take(k));
    } else {
        assert(s.take(k) =~= s);
    }
}

proof fn lemma_tool_prefix_le(s: Seq<(String, u64)>, k: int)
    requires
        0 <= k <= s.len(),
    ensures
        sum_tool_ms(s.take(k)) <= sum_tool_ms(s),
    decreases s.len() - k,
{
    if k < s.len() {
        lemma_tool_prefix_le(s, k + 1);
        assert(s.take(k + 1).drop_last() =~= s.take(k));
    } else {
        assert(s.take(k) =~= s);
    }
}

/// Measures the time since it was created.
pub struct ScopedTimer {
    start: Instant,
}

impl ScopedTimer {
    pub fn new() -> Self {
        ScopedTimer { start: instant_now() }
    }

    /// Milliseconds since the timer was created (read from the clock).
    pub fn elapsed_ms(&self) -> u64 {
        elapsed_millis(&self.start)
    }
}

} // verus!
