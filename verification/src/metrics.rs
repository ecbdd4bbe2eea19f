//! The record of one measured test and the tally of a suite's outcomes.

use vstd::prelude::*;
use crate::suite::{schedule, total_tests_spec, law_schedule_length, TestConfig};
use crate::text::chars_of;

verus! {

/// The sizes of the four parts of a proof package, in bytes of raw content.
#[derive(Clone, Copy, Debug, PartialEq, Eq, Structural)]
pub struct ProofComponents {
    pub elgamal_bytes: usize,
    pub schnorr_bytes: usize,
    pub zkp_bytes: usize,
    pub signature_bytes: usize,
}

/// The part sizes of a Bulletproof package: the two ElGamal points; the
/// Schnorr commitments `R`, `S`, `C`, the two responses, the state
/// commitment and the nonce; the range proof; the signature.
pub fn bulletproof_components(
    elgamal_c1: usize,
    elgamal_c2: usize,
    commit_r: usize,
    commit_s: usize,
    commit_c: usize,
    resp_r: usize,
    resp_state: usize,
    state_commit: usize,
    nonce: usize,
    bulletproof: usize,
    signature: usize,
) -> (r: ProofComponents)
    requires
        elgamal_c1 + elgamal_c2 <= usize::MAX,
        commit_r + commit_s + commit_c + resp_r + resp_state + state_commit + nonce <= usize::MAX,
    ensures
        r.elgamal_bytes == elgamal_c1 + elgamal_c2,
        r.schnorr_bytes == commit_r + commit_s + commit_c + resp_r + resp_state + state_commit
            + nonce,
        r.zkp_bytes == bulletproof,
        r.signature_bytes == signature,
{
    ProofComponents {
        elgamal_bytes: elgamal_c1 + elgamal_c2,
        schnorr_bytes: commit_r + commit_s + commit_c + resp_r + resp_state + state_commit + nonce,
        zkp_bytes: bulletproof,
        signature_bytes: signature,
    }
}

/// The part sizes of a zk-SNARK or zk-STARK package: the two ElGamal points;
/// the Schnorr commitments `R`, `S`, `P`, the two responses, the Pedersen
/// commitment, the input commitment, the response and challenge of the
/// commitment link and its one flag byte; the succinct proof; the signature.
pub fn sigma_components(
    elgamal_c1: usize,
    elgamal_c2: usize,
    commit_r: usize,
    commit_s: usize,
    commit_p: usize,
    resp_r: usize,
    resp_state: usize,
    pedersen_commit: usize,
    v_commit: usize,
    resp_f: usize,
    c_f: usize,
    succinct_proof: usize,
    signature: usize,
) -> (r: ProofComponents)
    requires
        elgamal_c1 + elgamal_c2 <= usize::MAX,
        commit_r + commit_s + commit_p + resp_r + resp_state + pedersen_commit + v_commit + resp_f
            + c_f + 1 <= usize::MAX,
    ensures
        r.elgamal_bytes == elgamal_c1 + elgamal_c2,
        r.schnorr_bytes == commit_r + commit_s + commit_p + resp_r + resp_state + pedersen_commit
            + v_commit + resp_f + c_f + 1,
        r.zkp_bytes == succinct_proof,
        r.signature_bytes == signature,
{
    ProofComponents {
        elgamal_bytes: elgamal_c1 + elgamal_c2,
        schnorr_bytes: commit_r + commit_s + commit_p + resp_r + resp_state + pedersen_commit
            + v_commit + resp_f + c_f + 1,
        zkp_bytes: succinct_proof,
        signature_bytes: signature,
    }
}

/// What the resource probes read around one measured run (each 0 where its
/// source was unavailable).
#[derive(Clone, Copy, Debug)]
pub struct ResourceProbes {
    pub initial_rss_kb: u64,
    pub peak_rss_kb: u64,
    pub cpu_before: (u128, u128),
    pub cpu_after: (u128, u128),
    pub disk_read_kb: u64,
    pub disk_write_kb: u64,
}

/// The record of one test. Cycle, instruction and cache-miss counts are not
/// measured and always absent.
#[derive(Clone, Debug)]
pub struct Metrics {
    pub timestamp: String,
    pub vm_profile: String,
    pub vm_arch: String,
    pub test_config: TestConfig,
    pub status: String,
    pub failure_reason: Option<String>,
    pub wall_time_us: u128,
    pub cpu_time_user_us: u128,
    pub cpu_time_system_us: u128,
    pub peak_rss_kb: u64,
    pub initial_rss_kb: u64,
    pub delta_rss_kb: i64,
    pub disk_read_kb: u64,
    pub disk_write_kb: u64,
    pub cycles: Option<u64>,
    pub instructions: Option<u64>,
    pub cache_misses: Option<u64>,
    pub output_size_bytes: Option<usize>,
    pub proof_components: Option<ProofComponents>,
}

/// The status text of a run.
pub open spec fn status_text(ok: bool) -> Seq<char> {
    if ok {
        "SUCCESS"@
    } else {
        "FAILED"@
    }
}

/// `x` taken into the range of `i64` modulo 2^64, as the release build's
/// subtraction of two `i64` does.
pub open spec fn wrap_i64(x: int) -> int {
    if x > i64::MAX {
        x - 0x1_0000_0000_0000_0000
    } else if x < i64::MIN {
        x + 0x1_0000_0000_0000_0000
    } else {
        x
    }
}

/// `a - b`, or 0 when `b > a`.
pub open spec fn saturating_diff(a: u128, b: u128) -> u128 {
    if a >= b {
        (a - b) as u128
    } else {
        0
    }
}

/// The CPU time charged to a run is what the counter advanced by during it:
/// the counter before plus the charge is the counter after; a counter that
/// went back charges nothing.
pub proof fn law_cpu_time_is_advance(before: u128, after: u128)
    ensures
        after >= before ==> before + saturating_diff(after, before) == after,
        after < before ==> saturating_diff(after, before) == 0,
{
}

/// The RSS change of a run is the peak less the initial size: added to the
/// initial size it gives the peak, whenever both sizes fit in an `i64`.
pub proof fn law_rss_delta_is_growth(initial: u64, peak: u64)
    requires
        initial <= i64::MAX,
        peak <= i64::MAX,
    ensures
        initial + wrap_i64(peak - initial) == peak,
{
}

/// The record of one test from what was measured: `outcome` is the measured
/// time in microseconds and the output size of a run that succeeded, or the
/// message of one that failed; CPU times are the difference of the counters
/// after and before the run, 0 where a counter went back.
pub fn build_metrics(
    timestamp: String,
    vm_profile: String,
    vm_arch: String,
    test_config: TestConfig,
    outcome: Result<(u128, usize), String>,
    probes: ResourceProbes,
    proof_components: Option<ProofComponents>,
) -> (m: Metrics)
    ensures
        m.timestamp == timestamp,
        m.vm_profile == vm_profile,
        m.vm_arch == vm_arch,
        m.test_config == test_config,
        m.status@ == status_text(outcome is Ok),
        m.failure_reason == (match outcome {
            Ok(_) => None::<String>,
            Err(e) => Some(e),
        }),
        m.wall_time_us == (match outcome {
            Ok((us, _)) => us,
            Err(_) => 0,
        }),
        m.output_size_bytes == (match outcome {
            Ok((_, size)) => Some(size),
            Err(_) => None::<usize>,
        }),
        m.cpu_time_user_us == saturating_diff(probes.cpu_after.0, probes.cpu_before.0),
        m.cpu_time_system_us == saturating_diff(probes.cpu_after.1, probes.cpu_before.1),
        m.peak_rss_kb == probes.peak_rss_kb,
        m.initial_rss_kb == probes.initial_rss_kb,
        m.delta_rss_kb == wrap_i64(probes.peak_rss_kb - probes.initial_rss_kb),
        m.disk_read_kb == probes.disk_read_kb,
        m.disk_write_kb == probes.disk_write_kb,
        m.cycles is None,
        m.instructions is None,
        m.cache_misses is None,
        m.proof_components == proof_components,
{
    let diff: i128 = probes.peak_rss_kb as i128 - probes.initial_rss_kb as i128;
    let wrapped: i128 = if diff > i64::MAX as i128 {
        diff - 0x1_0000_0000_0000_0000i128
    } else if diff < i64::MIN as i128 {
        diff + 0x1_0000_0000_0000_0000i128
    } else {
        diff
    };
    let (status, failure_reason, wall_time_us, output_size_bytes) = match outcome {
        Ok((us, size)) => (String::from_str("SUCCESS"), None, us, Some(size)),
        Err(e) => (String::from_str("FAILED"), Some(e), 0, None),
    };
    Metrics {
        timestamp,
        vm_profile,
        vm_arch,
        test_config,
        status,
        failure_reason,
        wall_time_us,
        cpu_time_user_us: probes.cpu_after.0.saturating_sub(probes.cpu_before.0),
        cpu_time_system_us: probes.cpu_after.1.saturating_sub(probes.cpu_before.1),
        peak_rss_kb: probes.peak_rss_kb,
        initial_rss_kb: probes.initial_rss_kb,
        delta_rss_kb: wrapped as i64,
        disk_read_kb: probes.disk_read_kb,
        disk_write_kb: probes.disk_write_kb,
        cycles: None,
        instructions: None,
        cache_misses: None,
        output_size_bytes,
        proof_components,
    }
}

/// How many unmeasured warm-up runs precede a measured one: two before each
/// of the first two runs of a configuration, none later.
pub fn warmup_runs(config: &TestConfig) -> (r: usize)
    ensures
        r == (if config.run <= 2 {
            2usize
        } else {
            0usize
        }),
{
    if config.run <= 2 {
        2
    } else {
        0
    }
}

/// Whether a status text reads `SUCCESS`.
pub fn is_success_status(status: &str) -> (r: bool)
    ensures
        r == (status@ == "SUCCESS"@),
{
    let a = chars_of(status);
    let b = chars_of("SUCCESS");
    if a.len() != b.len() {
        return false;
    }
    for i in 0..a.len()
        invariant
            a@ == status@,
            b@ == "SUCCESS"@,
            a@.len() == b@.len(),
            forall|j: int| 0 <= j < i ==> a@[j] == b@[j],
    {
        if a[i] != b[i] {
            return false;
        }
    }
    assert(a@ =~= b@);
    true
}

/// The running count of a suite's tests and of those that succeeded and
/// failed.
pub struct Tally {
    count: usize,
    success: usize,
    failure: usize,
}

impl Tally {
    /// Every counted test either succeeded or failed.
    pub closed spec fn wf(self) -> bool {
        self.success + self.failure == self.count
    }

    /// Tests counted so far.
    pub closed spec fn count_spec(self) -> nat {
        self.count as nat
    }

    /// Tests counted as successes.
    pub closed spec fn success_spec(self) -> nat {
        self.success as nat
    }

    /// Tests counted as failures.
    pub closed spec fn failure_spec(self) -> nat {
        self.failure as nat
    }

    /// An empty tally.
    pub fn new() -> (r: Tally)
        ensures
            r.wf(),
            r.count_spec() == 0,
            r.success_spec() == 0,
            r.failure_spec() == 0,
    {
        Tally { count: 0, success: 0, failure: 0 }
    }

    /// Tests counted so far.
    pub fn count(&self) -> (r: usize)
        ensures
            r == self.count_spec(),
    {
        self.count
    }

    /// Tests counted as successes.
    pub fn successes(&self) -> (r: usize)
        ensures
            r == self.success_spec(),
    {
        self.success
    }

    /// Tests counted as failures.
    pub fn failures(&self) -> (r: usize)
        ensures
            r == self.failure_spec(),
    {
        self.failure
    }

    /// Counts one test: a success when it produced a record whose status is
    /// `SUCCESS`, a failure when its record says otherwise or it produced none.
    pub fn record(&mut self, outcome: Option<&Metrics>)
        requires
            old(self).wf(),
            old(self).count_spec() < usize::MAX,
        ensures
            final(self).wf(),
            final(self).count_spec() == old(self).count_spec() + 1,
            (outcome matches Some(m) && m.status@ == "SUCCESS"@) ==> {
                &&& final(self).success_spec() == old(self).success_spec() + 1
                &&& final(self).failure_spec() == old(self).failure_spec()
            },
            !(outcome matches Some(m) && m.status@ == "SUCCESS"@) ==> {
                &&& final(self).success_spec() == old(self).success_spec()
                &&& final(self).failure_spec() == old(self).failure_spec() + 1
            },
    {
        let succeeded = match outcome {
            Some(m) => is_success_status(m.status.as_str()),
            None => false,
        };
        if succeeded {
            self.success = self.success + 1;
            self.count = self.count + 1;
        } else {
            self.failure = self.failure + 1;
            self.count = self.count + 1;
        }
    }

    /// Every counted test is a success or a failure, never both.
    pub proof fn law_counts_add_up(self)
        requires
            self.wf(),
        ensures
            self.success_spec() + self.failure_spec() == self.count_spec(),
    {
    }
}

/// A test is counted as a success exactly when its measured run succeeded.
pub proof fn law_success_iff_run_ok(ok: bool)
    ensures
        (status_text(ok) == "SUCCESS"@) == ok,
{
    reveal_strlit("SUCCESS");
    reveal_strlit("FAILED");
    if !ok {
        assert(status_text(ok)[0] != "SUCCESS"@[0]);
    }
}


/// Once every test of the suite has been counted, successes and failures
/// together are the announced total.
pub proof fn law_suite_outcomes_add_up(
    tally: Tally,
    dev: u32,
    configs: Seq<(usize, usize)>,
    num_sizes: nat,
    num_ratios: nat,
)
    requires
        tally.wf(),
        configs.len() == num_sizes * num_ratios,
        tally.count_spec() == schedule(dev, configs).len(),
    ensures
        tally.success_spec() + tally.failure_spec() == total_tests_spec(num_sizes, num_ratios),
{
    law_schedule_length(dev, configs, num_sizes, num_ratios);
    tally.law_counts_add_up();
}

/// The sum of a list of sizes.
pub open spec fn sum_sizes(s: Seq<usize>) -> nat
    decreases s.len(),
{
    if s.len() == 0 {
        0
    } else {
        sum_sizes(s.drop_last()) + s.last() as nat
    }
}

proof fn lemma_sum_sizes_prefix(s: Seq<usize>, k: int)
    requires
        0 <= k <= s.len(),
    ensures
        sum_sizes(s.take(k)) <= sum_sizes(s),
    decreases s.len() - k,
{
    if k < s.len() {
        lemma_sum_sizes_prefix(s, k + 1);
        assert(s.take(k + 1).drop_last() == s.take(k));
    } else {
        assert(s.take(k) == s);
    }
}

/// Every package counts towards the total, wherever it stands: adding one
/// more size adds exactly that size, and the total of no packages is 0.
pub proof fn law_total_size_additive(s: Seq<usize>, x: usize)
    ensures
        sum_sizes(Seq::<usize>::empty()) == 0,
        sum_sizes(s.push(x)) == sum_sizes(s) + x,
{
    assert(s.push(x).drop_last() == s);
}

/// The total of two lists of packages together is the sum of their totals.
pub proof fn law_total_size_concat(a: Seq<usize>, b: Seq<usize>)
    ensures
        sum_sizes(a + b) == sum_sizes(a) + sum_sizes(b),
    decreases b.len(),
{
    if b.len() == 0 {
        assert(a + b == a);
    } else {
        law_total_size_concat(a, b.drop_last());
        assert((a + b).drop_last() == a + b.drop_last());
        assert((a + b).last() == b.last());
    }
}

/// The total of the serialized sizes of several packages.
pub fn total_size(sizes: &[usize]) -> (r: usize)
    requires
        sum_sizes(sizes@) <= usize::MAX,
    ensures
        r == sum_sizes(sizes@),
{
    let mut total: usize = 0;
    assert(sizes@.take(0) == Seq::<usize>::empty());
    for i in 0..sizes.len()
        invariant
            sum_sizes(sizes@) <= usize::MAX,
            total == sum_sizes(sizes@.take(i as int)),
    {
        assert(sizes@.take(i + 1).drop_last() == sizes@.take(i as int));
        proof {
            lemma_sum_sizes_prefix(sizes@, i + 1);
        }
        total = total + sizes[i];
    }
    assert(sizes@.take(sizes@.len() as int) == sizes@);
    total
}

} // verus!
