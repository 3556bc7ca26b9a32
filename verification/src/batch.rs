//! The batch probe engine: message shapes, the probe-path builder, the
//! per-target result classification, and the sliding-window dispatch state
//! machine with its concurrency bound.

use vstd::prelude::*;
use vstd::string::StringExecFns;

use crate::ascii::spec_dec_chars;
use crate::ascii::u64_to_dec_string;
use crate::errors::IpcError;

verus! {

/// A request to probe one named target.
pub struct SingleDelayTestRequest {
    pub node_name: String,
    pub test_url: String,
    pub timeout_ms: u32,
}

/// The result for one target; `-1` marks failure.
pub struct SingleDelayTestResult {
    pub node_name: String,
    pub delay_ms: i32,
}

/// A request to probe many named targets with bounded concurrency.
pub struct BatchDelayTestRequest {
    pub node_names: Vec<String>,
    pub test_url: String,
    pub timeout_ms: u32,
    pub concurrency: u32,
}

/// One streamed progress event: a target finished; `-1` marks failure.
pub struct DelayTestProgress {
    pub node_name: String,
    pub delay_ms: i32,
}

/// The terminal summary of a batch.
pub struct BatchDelayTestComplete {
    pub is_successful: bool,
    pub total_count: u32,
    pub success_count: u32,
    pub error_message: Option<String>,
}

/// One target's measured result; `-1` marks failure.
#[derive(Debug, Clone)]
pub struct BatchTestResult {
    pub node_name: String,
    pub delay_ms: i32,
}

/// What `urlencoding::encode` returns for the given characters.
pub uninterp spec fn percent_encoded(s: Seq<char>) -> Seq<char>;

/// Relies on `urlencoding::encode`: percent-encodes every byte except
/// ASCII alphanumerics and `-`, `_`, `.`, `~`; the result is a function of
/// the input characters alone.
#[verifier::external_body]
fn percent_encode(s: &str) -> (r: String)
    ensures
        r@ == percent_encoded(s@),
{
    urlencoding::encode(s).into_owned()
}

/// The path probed for one target: the percent-encoded target name and the
/// caller's timeout and test URL, in the peer's delay-measurement API shape.
pub open spec fn spec_probe_path(node_name: Seq<char>, timeout_ms: u32, test_url: Seq<char>) -> Seq<
    char,
> {
    "/proxies/"@ + percent_encoded(node_name) + "/delay?timeout="@ + spec_dec_chars(
        timeout_ms as int,
    ) + "&url="@ + test_url
}

/// Builds the probe path for one target.
pub fn build_probe_path(node_name: &str, timeout_ms: u32, test_url: &str) -> (r: String)
    ensures
        r@ == spec_probe_path(node_name@, timeout_ms, test_url@),
{
    let mut r = String::from_str("/proxies/");
    let encoded = percent_encode(node_name);
    r.append(encoded.as_str());
    r.append("/delay?timeout=");
    let digits = u64_to_dec_string(timeout_ms as u64);
    r.append(digits.as_str());
    r.append("&url=");
    r.append(test_url);
    assert(r@ =~= spec_probe_path(node_name@, timeout_ms, test_url@));
    r
}

/// What serde_json reads for the given field of the given JSON body:
/// `None` when the body is not JSON, the field is missing, or it is not
/// representable as a signed 64-bit integer.
pub uninterp spec fn json_int_field_of(body: Seq<char>, field: Seq<char>) -> Option<i64>;

/// Relies on serde_json (`from_str`, `Value::get`, `Value::as_i64`): parses
/// the body and reads the named top-level field as an integer. The result
/// is a function of the two strings alone.
#[verifier::external_body]
fn json_int_field(body: &str, field: &str) -> (r: Option<i64>)
    ensures
        r == json_int_field_of(body@, field@),
{
    let parsed: Result<serde_json::Value, serde_json::Error> = serde_json::from_str(body);
    match parsed {
        Ok(v) => match v.get(field) {
            Some(f) => f.as_i64(),
            None => None,
        },
        Err(_) => None,
    }
}

/// The outcome of one pooled probe call, as the engine sees it: the call
/// timed out, failed with a transport or status error, or produced a body.
pub enum ProbeCallResult {
    TimedOut,
    Failed(IpcError),
    Body(String),
}

/// Classifies one probe outcome into the per-target delay value: a body
/// with an integer `delay` field yields that value (truncated to 32 bits,
/// negative values passed through verbatim); everything else — timeout,
/// transport error, non-2xx status, missing or malformed field — yields
/// `-1`.
pub fn classify_delay_response(outcome: &ProbeCallResult) -> (d: i32)
    ensures
        outcome is TimedOut ==> d == -1,
        outcome matches ProbeCallResult::Failed(_) ==> d == -1,
        outcome matches ProbeCallResult::Body(b) ==> (match json_int_field_of(b@, "delay"@) {
            Some(v) => d == v as i32,
            None => d == -1,
        }),
{
    match outcome {
        ProbeCallResult::TimedOut => -1,
        ProbeCallResult::Failed(_) => -1,
        ProbeCallResult::Body(b) => {
            match json_int_field(b.as_str(), "delay") {
                Some(v) => #[verifier::truncate] (v as i32),
                None => -1,
            }
        },
    }
}

/// The delay value recorded for a probe that ran out of time.
pub fn timeout_result(node_name: &str, timeout_ms: u32, elapsed_ms: u128, retry_count: u32) -> (r:
    i32)
    ensures
        r == -1,
{
    -1
}

/// The number of probes allowed in flight at once: the requested
/// concurrency raised to at least one, and clamped to the number of
/// targets (itself read as at least one).
pub open spec fn spec_effective_concurrency(requested: u32, target_count: int) -> int {
    let rq: int = if requested >= 1 {
        requested as int
    } else {
        1
    };
    let nb: int = if target_count >= 1 {
        target_count
    } else {
        1
    };
    if rq <= nb {
        rq
    } else {
        nb
    }
}

/// Computes the effective concurrency for a batch.
pub fn effective_concurrency(requested: u32, target_count: usize) -> (r: usize)
    ensures
        r == spec_effective_concurrency(requested, target_count as int),
        r >= 1,
{
    let rq: usize = if requested >= 1 {
        requested as usize
    } else {
        1
    };
    let nb: usize = if target_count >= 1 {
        target_count
    } else {
        1
    };
    if rq <= nb {
        rq
    } else {
        nb
    }
}

/// How many results measured a strictly positive delay.
pub open spec fn spec_success_count(s: Seq<BatchTestResult>) -> int
    decreases s.len(),
{
    if s.len() == 0 {
        0int
    } else {
        spec_success_count(s.drop_last()) + (if s.last().delay_ms > 0 {
            1int
        } else {
            0int
        })
    }
}

/// How many entries of a flag sequence are set.
pub open spec fn spec_count_true(s: Seq<bool>) -> int
    decreases s.len(),
{
    if s.len() == 0 {
        0int
    } else {
        spec_count_true(s.drop_last()) + (if s.last() {
            1int
        } else {
            0int
        })
    }
}

/// A count of set flags lies between zero and the number of flags.
pub proof fn lemma_count_true_bounds(s: Seq<bool>)
    ensures
        0 <= spec_count_true(s) <= s.len(),
    decreases s.len(),
{
    if s.len() > 0 {
        lemma_count_true_bounds(s.drop_last());
    }
}

/// Setting one clear flag raises the count by exactly one.
pub proof fn lemma_count_true_set(s: Seq<bool>, i: int)
    requires
        0 <= i < s.len(),
        !s[i],
    ensures
        spec_count_true(s.update(i, true)) == spec_count_true(s) + 1,
    decreases s.len(),
{
    let u = s.update(i, true);
    if i == s.len() - 1 {
        assert(u.drop_last() =~= s.drop_last());
        assert(u.last());
    } else {
        assert(u.drop_last() =~= s.drop_last().update(i, true));
        assert(u.last() == s.last());
        lemma_count_true_set(s.drop_last(), i);
    }
}

/// When every flag counts, every flag is set.
pub proof fn lemma_count_true_full(s: Seq<bool>)
    requires
        spec_count_true(s) == s.len(),
    ensures
        forall|j: int| 0 <= j < s.len() ==> s[j],
    decreases s.len(),
{
    if s.len() > 0 {
        lemma_count_true_bounds(s.drop_last());
        assert(s.last());
        lemma_count_true_full(s.drop_last());
        assert(forall|j: int| 0 <= j < s.len() - 1 ==> s[j] == s.drop_last()[j]);
    }
}

/// The dispatch state of one batch: targets are dispatched in input order
/// through a sliding window of at most `concurrency` probes in flight;
/// each completion appends one result, in whatever order probes finish,
/// and marks its target done so no target can complete twice.
pub struct BatchState {
    pub node_names: Vec<String>,
    pub next: usize,
    pub in_flight: usize,
    pub concurrency: usize,
    pub results: Vec<BatchTestResult>,
    pub completed: Vec<bool>,
}

impl BatchState {
    /// The engine's invariant: the window never exceeds the effective
    /// concurrency, dispatch never passes the target list, every
    /// dispatched target is either in flight or recorded — one result per
    /// completed target — and targets not yet dispatched are not completed.
    pub open spec fn wf(&self) -> bool {
        &&& self.concurrency >= 1
        &&& self.in_flight <= self.concurrency
        &&& self.next <= self.node_names@.len()
        &&& self.results@.len() + self.in_flight == self.next
        &&& self.completed@.len() == self.node_names@.len()
        &&& spec_count_true(self.completed@) == self.results@.len()
        &&& forall|j: int| self.next <= j < self.completed@.len() ==> !self.completed@[j]
    }

    /// Starts a batch over the given targets.
    pub fn start(node_names: Vec<String>, requested_concurrency: u32) -> (r: BatchState)
        ensures
            r.wf(),
            r.node_names@ == node_names@,
            r.next == 0,
            r.in_flight == 0,
            r.results@ == Seq::<BatchTestResult>::empty(),
            r.concurrency == spec_effective_concurrency(
                requested_concurrency,
                node_names@.len() as int,
            ),
    {
        let concurrency = effective_concurrency(requested_concurrency, node_names.len());
        let n = node_names.len();
        let mut completed: Vec<bool> = Vec::new();
        let mut i: usize = 0;
        while i < n
            invariant
                i <= n,
                completed@.len() == i,
                spec_count_true(completed@) == 0,
                forall|j: int| 0 <= j < i ==> !completed@[j],
            decreases n - i,
        {
            let ghost before = completed@;
            completed.push(false);
            proof {
                assert(completed@.drop_last() =~= before);
            }
            i = i + 1;
        }
        let r = BatchState {
            node_names,
            next: 0,
            in_flight: 0,
            concurrency,
            results: Vec::new(),
            completed,
        };
        proof {
            assert(r.results@ =~= Seq::<BatchTestResult>::empty());
        }
        r
    }

    /// Whether another probe may be dispatched now: targets remain and the
    /// window has room.
    pub fn can_dispatch(&self) -> (r: bool)
        ensures
            r == (self.next < self.node_names@.len() && self.in_flight < self.concurrency),
    {
        self.next < self.node_names.len() && self.in_flight < self.concurrency
    }

    /// Dispatches the next target in input order, growing the window by
    /// one, and returns the target's index and name; the index is handed
    /// back on completion.
    pub fn dispatch(&mut self) -> (r: (usize, String))
        requires
            old(self).wf(),
            old(self).next < old(self).node_names@.len(),
            old(self).in_flight < old(self).concurrency,
        ensures
            final(self).wf(),
            r.0 == old(self).next,
            r.1@ == old(self).node_names@[old(self).next as int]@,
            final(self).next == old(self).next + 1,
            final(self).in_flight == old(self).in_flight + 1,
            final(self).node_names@ == old(self).node_names@,
            final(self).concurrency == old(self).concurrency,
            final(self).results@ == old(self).results@,
            final(self).completed@ == old(self).completed@,
    {
        let n = self.node_names.len();
        assert(self.next < n);
        let idx = self.next;
        let name = self.node_names[idx].clone();
        self.next = self.next + 1;
        self.in_flight = self.in_flight + 1;
        (idx, name)
    }

    /// Records one finished probe by its target index, shrinking the window
    /// by one and marking the target done — a target that has already
    /// completed cannot complete again — and hands back the progress event
    /// to stream for it.
    pub fn complete(&mut self, target: usize, delay_ms: i32) -> (ev: DelayTestProgress)
        requires
            old(self).wf(),
            old(self).in_flight > 0,
            target < old(self).next,
            !old(self).completed@[target as int],
        ensures
            final(self).wf(),
            ev.node_name@ == old(self).node_names@[target as int]@,
            ev.delay_ms == delay_ms,
            final(self).results@.len() == old(self).results@.len() + 1,
            forall|k: int|
                0 <= k < old(self).results@.len() ==> final(self).results@[k] == old(
                    self,
                ).results@[k],
            final(self).results@.last().node_name@ == old(self).node_names@[target as int]@,
            final(self).results@.last().delay_ms == delay_ms,
            final(self).completed@ == old(self).completed@.update(target as int, true),
            final(self).in_flight == old(self).in_flight - 1,
            final(self).next == old(self).next,
            final(self).node_names@ == old(self).node_names@,
            final(self).concurrency == old(self).concurrency,
    {
        let node_name = self.node_names[target].clone();
        let ev = DelayTestProgress { node_name: node_name.clone(), delay_ms };
        proof {
            lemma_count_true_set(self.completed@, target as int);
        }
        self.results.push(BatchTestResult { node_name, delay_ms });
        self.completed.set(target, true);
        self.in_flight = self.in_flight - 1;
        ev
    }

    /// Whether the batch has finished: every target dispatched and every
    /// probe completed — exactly one recorded result per target, and every
    /// target marked done.
    pub fn is_done(&self) -> (r: bool)
        ensures
            r == (self.next == self.node_names@.len() && self.in_flight == 0),
            self.wf() && r ==> self.results@.len() == self.node_names@.len(),
            self.wf() && r ==> forall|j: int| 0 <= j < self.completed@.len() ==> self.completed@[j],
    {
        let r = self.next == self.node_names.len() && self.in_flight == 0;
        proof {
            if self.wf() && r {
                lemma_count_true_full(self.completed@);
            }
        }
        r
    }

    /// The terminal summary: the target count, how many results measured a
    /// strictly positive delay, and — whatever the individual outcomes — a
    /// success flag of `true` with no error message, as the engine never
    /// fails a batch outright.
    pub fn summary(&self) -> (r: BatchDelayTestComplete)
        requires
            self.wf(),
            self.next == self.node_names@.len(),
            self.in_flight == 0,
        ensures
            r.is_successful == true,
            r.error_message is None,
            r.total_count == self.node_names@.len() as u32,
            r.success_count == spec_success_count(self.results@) as u32,
            self.results@.len() == self.node_names@.len(),
    {
        let mut count: usize = 0;
        let mut i: usize = 0;
        proof {
            lemma_success_count_bounds(self.results@);
        }
        while i < self.results.len()
            invariant
                i <= self.results@.len(),
                count == spec_success_count(self.results@.take(i as int)),
                count <= i,
            decreases self.results@.len() - i,
        {
            proof {
                assert(self.results@.take(i + 1).drop_last() =~= self.results@.take(i as int));
                lemma_success_count_bounds(self.results@.take(i + 1));
            }
            if self.results[i].delay_ms > 0 {
                count = count + 1;
            }
            i = i + 1;
        }
        proof {
            assert(self.results@.take(self.results@.len() as int) =~= self.results@);
        }
        BatchDelayTestComplete {
            is_successful: true,
            total_count: #[verifier::truncate] (self.node_names.len() as u32),
            success_count: #[verifier::truncate] (count as u32),
            error_message: None,
        }
    }
}

/// A success count lies between zero and the number of results.
pub proof fn lemma_success_count_bounds(s: Seq<BatchTestResult>)
    ensures
        0 <= spec_success_count(s) <= s.len(),
    decreases s.len(),
{
    if s.len() > 0 {
        lemma_success_count_bounds(s.drop_last());
    }
}

} // verus!
