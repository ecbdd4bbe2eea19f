//! The benchmark suite: which tests run, in which order, how many there are,
//! and the tally of their outcomes.

use vstd::prelude::*;

verus! {

/// The zero-knowledge proof system a test exercises.
#[derive(Clone, Copy, Debug, PartialEq, Eq, Structural)]
pub enum ZKPType {
    Bulletproof,
    SNARK,
    STARK,
}

/// The protocol operation a test measures.
#[derive(Clone, Copy, Debug, PartialEq, Eq, Structural)]
pub enum TestFunction {
    DKG1,
    DKG2,
    DKG3,
    PartialGen,
    PartialVerify,
    AggCompute,
    ProofGen,
    ProofVerify,
    BaselineRound,
}

/// One test: the operation, the proof system where it has one, the network
/// size `n`, the threshold `t`, the device that runs it and the run number.
#[derive(Clone, Copy, Debug, PartialEq, Eq, Structural)]
pub struct TestConfig {
    pub zkp_type: Option<ZKPType>,
    pub function: TestFunction,
    pub n: usize,
    pub t: usize,
    pub device_id: u32,
    pub run: usize,
}

/// How often each configuration is measured.
pub const RUNS_PER_CONFIG: usize = 30;

/// The network size of the tests that are measured at one size only.
pub const FIXED_N: usize = 5;

/// The threshold of the tests that are measured at one size only.
pub const FIXED_T: usize = 3;

/// The measurements of one configuration: runs 1 to 30, in order.
pub open spec fn runs(zkp: Option<ZKPType>, f: TestFunction, n: usize, t: usize, dev: u32) -> Seq<
    TestConfig,
> {
    Seq::new(
        RUNS_PER_CONFIG as nat,
        |i: int|
            TestConfig { zkp_type: zkp, function: f, n: n, t: t, device_id: dev, run: (i + 1) as usize },
    )
}

/// Partial verification, measured at the fixed size only.
pub open spec fn partial_verify_block(dev: u32) -> Seq<TestConfig> {
    runs(None, TestFunction::PartialVerify, FIXED_N, FIXED_T, dev)
}

/// Proof generation and verification for each proof system in turn, at the
/// fixed size.
pub open spec fn zkp_block(dev: u32) -> Seq<TestConfig> {
    runs(Some(ZKPType::Bulletproof), TestFunction::ProofGen, FIXED_N, FIXED_T, dev) + runs(
        Some(ZKPType::Bulletproof),
        TestFunction::ProofVerify,
        FIXED_N,
        FIXED_T,
        dev,
    ) + runs(Some(ZKPType::SNARK), TestFunction::ProofGen, FIXED_N, FIXED_T, dev) + runs(
        Some(ZKPType::SNARK),
        TestFunction::ProofVerify,
        FIXED_N,
        FIXED_T,
        dev,
    ) + runs(Some(ZKPType::STARK), TestFunction::ProofGen, FIXED_N, FIXED_T, dev) + runs(
        Some(ZKPType::STARK),
        TestFunction::ProofVerify,
        FIXED_N,
        FIXED_T,
        dev,
    )
}

/// One network-scaled operation at every `(n, t)` of the sweep, in order.
pub open spec fn function_block(f: TestFunction, configs: Seq<(usize, usize)>, dev: u32) -> Seq<
    TestConfig,
>
    decreases configs.len(),
{
    if configs.len() == 0 {
        Seq::<TestConfig>::empty()
    } else {
        function_block(f, configs.drop_last(), dev) + runs(
            None,
            f,
            configs.last().0,
            configs.last().1,
            dev,
        )
    }
}

/// The network-scaled operations, one after the other.
pub open spec fn scaled_block(configs: Seq<(usize, usize)>, dev: u32) -> Seq<TestConfig> {
    function_block(TestFunction::PartialGen, configs, dev) + function_block(
        TestFunction::AggCompute,
        configs,
        dev,
    ) + function_block(TestFunction::DKG1, configs, dev) + function_block(
        TestFunction::DKG2,
        configs,
        dev,
    ) + function_block(TestFunction::DKG3, configs, dev) + function_block(
        TestFunction::BaselineRound,
        configs,
        dev,
    )
}

/// The whole suite for device `dev` over the sweep `configs` of `(n, t)`
/// pairs: partial verification, then the proof systems, then the
/// network-scaled operations.
pub open spec fn schedule(dev: u32, configs: Seq<(usize, usize)>) -> Seq<TestConfig> {
    partial_verify_block(dev) + zkp_block(dev) + scaled_block(configs, dev)
}

/// The announced number of tests for a sweep of `num_sizes` network sizes and
/// `num_ratios` threshold ratios.
pub open spec fn total_tests_spec(num_sizes: nat, num_ratios: nat) -> nat {
    num_sizes * num_ratios * 6 * 30 + 30 + 3 * 2 * 30
}

/// The announced number of tests.
pub fn total_tests(num_sizes: usize, num_ratios: usize) -> (r: usize)
    requires
        total_tests_spec(num_sizes as nat, num_ratios as nat) <= usize::MAX,
    ensures
        r == total_tests_spec(num_sizes as nat, num_ratios as nat),
{
    assert(num_sizes * num_ratios <= num_sizes * num_ratios * 6 * 30) by (nonlinear_arith)
        requires
            num_sizes * num_ratios >= 0,
    ;
    let m = num_sizes * num_ratios;
    m * 6 * 30 + 30 + 3 * 2 * 30
}

/// Appends the 30 runs of one configuration.
fn push_runs(
    v: &mut Vec<TestConfig>,
    zkp: Option<ZKPType>,
    f: TestFunction,
    n: usize,
    t: usize,
    dev: u32,
)
    ensures
        final(v)@ == old(v)@ + runs(zkp, f, n, t, dev),
{
    let ghost start = v@;
    for r in 0..RUNS_PER_CONFIG
        invariant
            v@ == start + runs(zkp, f, n, t, dev).take(r as int),
    {
        v.push(TestConfig { zkp_type: zkp, function: f, n: n, t: t, device_id: dev, run: r + 1 });
        assert(runs(zkp, f, n, t, dev).take(r + 1) == runs(zkp, f, n, t, dev).take(r as int).push(
            runs(zkp, f, n, t, dev)[r as int],
        ));
    }
    assert(runs(zkp, f, n, t, dev).take(30) == runs(zkp, f, n, t, dev));
}

/// Appends one network-scaled operation at every configuration.
fn push_function_block(v: &mut Vec<TestConfig>, f: TestFunction, configs: &[(usize, usize)], dev: u32)
    ensures
        final(v)@ == old(v)@ + function_block(f, configs@, dev),
{
    let ghost start = v@;
    assert(configs@.take(0) == Seq::<(usize, usize)>::empty());
    for i in 0..configs.len()
        invariant
            v@ == start + function_block(f, configs@.take(i as int), dev),
    {
        let (n, t) = configs[i];
        push_runs(v, None, f, n, t, dev);
        assert(configs@.take(i + 1).drop_last() == configs@.take(i as int));
        assert(configs@.take(i + 1).last() == configs@[i as int]);
        assert(v@ =~= start + function_block(f, configs@.take(i + 1), dev));
    }
    assert(configs@.take(configs@.len() as int) == configs@);
}

/// The suite for device `device_id` over the sweep `configs`, in the order in
/// which it is run.
pub fn build_schedule(device_id: u32, configs: &[(usize, usize)]) -> (r: Vec<TestConfig>)
    ensures
        r@ == schedule(device_id, configs@),
{
    let mut v: Vec<TestConfig> = Vec::new();
    push_runs(&mut v, None, TestFunction::PartialVerify, FIXED_N, FIXED_T, device_id);
    push_runs(&mut v, Some(ZKPType::Bulletproof), TestFunction::ProofGen, FIXED_N, FIXED_T, device_id);
    push_runs(&mut v, Some(ZKPType::Bulletproof), TestFunction::ProofVerify, FIXED_N, FIXED_T, device_id);
    push_runs(&mut v, Some(ZKPType::SNARK), TestFunction::ProofGen, FIXED_N, FIXED_T, device_id);
    push_runs(&mut v, Some(ZKPType::SNARK), TestFunction::ProofVerify, FIXED_N, FIXED_T, device_id);
    push_runs(&mut v, Some(ZKPType::STARK), TestFunction::ProofGen, FIXED_N, FIXED_T, device_id);
    push_runs(&mut v, Some(ZKPType::STARK), TestFunction::ProofVerify, FIXED_N, FIXED_T, device_id);
    push_function_block(&mut v, TestFunction::PartialGen, configs, device_id);
    push_function_block(&mut v, TestFunction::AggCompute, configs, device_id);
    push_function_block(&mut v, TestFunction::DKG1, configs, device_id);
    push_function_block(&mut v, TestFunction::DKG2, configs, device_id);
    push_function_block(&mut v, TestFunction::DKG3, configs, device_id);
    push_function_block(&mut v, TestFunction::BaselineRound, configs, device_id);
    assert(v@ =~= schedule(device_id, configs@));
    v
}


/// Each configuration of the sweep contributes 30 tests.
proof fn lemma_function_block_len(f: TestFunction, configs: Seq<(usize, usize)>, dev: u32)
    ensures
        function_block(f, configs, dev).len() == configs.len() * 30,
    decreases configs.len(),
{
    if configs.len() > 0 {
        lemma_function_block_len(f, configs.drop_last(), dev);
        assert(configs.len() * 30 == (configs.len() - 1) * 30 + 30) by (nonlinear_arith)
            requires
                configs.len() > 0,
        ;
    }
}

/// The suite holds exactly as many tests as the harness announces before it
/// starts, when the sweep pairs every network size with every threshold
/// ratio.
pub proof fn law_schedule_length(
    dev: u32,
    configs: Seq<(usize, usize)>,
    num_sizes: nat,
    num_ratios: nat,
)
    requires
        configs.len() == num_sizes * num_ratios,
    ensures
        schedule(dev, configs).len() == total_tests_spec(num_sizes, num_ratios),
{
    lemma_function_block_len(TestFunction::PartialGen, configs, dev);
    lemma_function_block_len(TestFunction::AggCompute, configs, dev);
    lemma_function_block_len(TestFunction::DKG1, configs, dev);
    lemma_function_block_len(TestFunction::DKG2, configs, dev);
    lemma_function_block_len(TestFunction::DKG3, configs, dev);
    lemma_function_block_len(TestFunction::BaselineRound, configs, dev);
    assert(num_sizes * num_ratios * 6 * 30 == configs.len() * 30 * 6) by (nonlinear_arith)
        requires
            configs.len() == num_sizes * num_ratios,
    ;
}

/// Entry `j` of one operation's block over the sweep is run `j % 30 + 1` at
/// the `j / 30`-th pair of the sweep.
proof fn lemma_function_block_at(f: TestFunction, configs: Seq<(usize, usize)>, dev: u32)
    ensures
        forall|j: int|
            0 <= j < 30 * configs.len() ==> #[trigger] function_block(f, configs, dev)[j]
                == (TestConfig {
                zkp_type: None,
                function: f,
                n: configs[j / 30].0,
                t: configs[j / 30].1,
                device_id: dev,
                run: (j % 30 + 1) as usize,
            }),
    decreases configs.len(),
{
    lemma_function_block_len(f, configs, dev);
    if configs.len() > 0 {
        let m = configs.len();
        let prev = configs.drop_last();
        lemma_function_block_at(f, prev, dev);
        lemma_function_block_len(f, prev, dev);
        let fb = function_block(f, configs, dev);
        let pb = function_block(f, prev, dev);
        let last = configs.last();
        let r = runs(None, f, last.0, last.1, dev);
        assert(fb == pb + r);
        assert forall|j: int| 0 <= j < 30 * m implies #[trigger] fb[j] == (TestConfig {
            zkp_type: None,
            function: f,
            n: configs[j / 30].0,
            t: configs[j / 30].1,
            device_id: dev,
            run: (j % 30 + 1) as usize,
        }) by {
            if j < 30 * (m - 1) {
                assert(fb[j] == pb[j]);
                assert(0 <= j / 30 < m - 1) by (nonlinear_arith)
                    requires
                        0 <= j < 30 * (m - 1),
                ;
                assert(prev[j / 30] == configs[j / 30]);
            } else {
                assert(fb[j] == r[j - 30 * (m - 1)]);
                assert(j / 30 == m - 1 && j % 30 == j - 30 * (m - 1)) by (nonlinear_arith)
                    requires
                        30 * (m - 1) <= j < 30 * m,
                ;
            }
        }
    }
}

/// The layout of the suite, entry by entry: runs 1 to 30 of partial
/// verification at n = 5, t = 3; then, for Bulletproof, SNARK and STARK in
/// turn, runs 1 to 30 of proof generation and then of proof verification at
/// n = 5, t = 3; then partial generation, aggregation, the three key-generation
/// phases and the baseline round in turn, each over every `(n, t)` of the
/// sweep in order with runs 1 to 30 at each.
pub proof fn law_schedule_layout(dev: u32, configs: Seq<(usize, usize)>)
    ensures
        schedule(dev, configs).len() == 210 + 180 * configs.len(),
        forall|k: int|
            0 <= k < 30 ==> #[trigger] schedule(dev, configs)[k] == (TestConfig {
                zkp_type: None,
                function: TestFunction::PartialVerify,
                n: 5,
                t: 3,
                device_id: dev,
                run: (k + 1) as usize,
            }),
        forall|k: int|
            30 <= k < 60 ==> #[trigger] schedule(dev, configs)[k] == (TestConfig {
                zkp_type: Some(ZKPType::Bulletproof),
                function: TestFunction::ProofGen,
                n: 5,
                t: 3,
                device_id: dev,
                run: (k - 29) as usize,
            }),
        forall|k: int|
            60 <= k < 90 ==> #[trigger] schedule(dev, configs)[k] == (TestConfig {
                zkp_type: Some(ZKPType::Bulletproof),
                function: TestFunction::ProofVerify,
                n: 5,
                t: 3,
                device_id: dev,
                run: (k - 59) as usize,
            }),
        forall|k: int|
            90 <= k < 120 ==> #[trigger] schedule(dev, configs)[k] == (TestConfig {
                zkp_type: Some(ZKPType::SNARK),
                function: TestFunction::ProofGen,
                n: 5,
                t: 3,
                device_id: dev,
                run: (k - 89) as usize,
            }),
        forall|k: int|
            120 <= k < 150 ==> #[trigger] schedule(dev, configs)[k] == (TestConfig {
                zkp_type: Some(ZKPType::SNARK),
                function: TestFunction::ProofVerify,
                n: 5,
                t: 3,
                device_id: dev,
                run: (k - 119) as usize,
            }),
        forall|k: int|
            150 <= k < 180 ==> #[trigger] schedule(dev, configs)[k] == (TestConfig {
                zkp_type: Some(ZKPType::STARK),
                function: TestFunction::ProofGen,
                n: 5,
                t: 3,
                device_id: dev,
                run: (k - 149) as usize,
            }),
        forall|k: int|
            180 <= k < 210 ==> #[trigger] schedule(dev, configs)[k] == (TestConfig {
                zkp_type: Some(ZKPType::STARK),
                function: TestFunction::ProofVerify,
                n: 5,
                t: 3,
                device_id: dev,
                run: (k - 179) as usize,
            }),
        forall|k: int|
            210 <= k < 210 + 30 * configs.len() ==> #[trigger] schedule(dev, configs)[k] == (
            TestConfig {
                zkp_type: None,
                function: TestFunction::PartialGen,
                n: configs[(k - 210) / 30].0,
                t: configs[(k - 210) / 30].1,
                device_id: dev,
                run: ((k - 210) % 30 + 1) as usize,
            }),
        forall|k: int|
            210 + 30 * configs.len() <= k < 210 + 60 * configs.len() ==> #[trigger] schedule(
                dev,
                configs,
            )[k] == (TestConfig {
                zkp_type: None,
                function: TestFunction::AggCompute,
                n: configs[(k - 210 - 30 * configs.len()) / 30].0,
                t: configs[(k - 210 - 30 * configs.len()) / 30].1,
                device_id: dev,
                run: ((k - 210 - 30 * configs.len()) % 30 + 1) as usize,
            }),
        forall|k: int|
            210 + 60 * configs.len() <= k < 210 + 90 * configs.len() ==> #[trigger] schedule(
                dev,
                configs,
            )[k] == (TestConfig {
                zkp_type: None,
                function: TestFunction::DKG1,
                n: configs[(k - 210 - 60 * configs.len()) / 30].0,
                t: configs[(k - 210 - 60 * configs.len()) / 30].1,
                device_id: dev,
                run: ((k - 210 - 60 * configs.len()) % 30 + 1) as usize,
            }),
        forall|k: int|
            210 + 90 * configs.len() <= k < 210 + 120 * configs.len() ==> #[trigger] schedule(
                dev,
                configs,
            )[k] == (TestConfig {
                zkp_type: None,
                function: TestFunction::DKG2,
                n: configs[(k - 210 - 90 * configs.len()) / 30].0,
                t: configs[(k - 210 - 90 * configs.len()) / 30].1,
                device_id: dev,
                run: ((k - 210 - 90 * configs.len()) % 30 + 1) as usize,
            }),
        forall|k: int|
            210 + 120 * configs.len() <= k < 210 + 150 * configs.len() ==> #[trigger] schedule(
                dev,
                configs,
            )[k] == (TestConfig {
                zkp_type: None,
                function: TestFunction::DKG3,
                n: configs[(k - 210 - 120 * configs.len()) / 30].0,
                t: configs[(k - 210 - 120 * configs.len()) / 30].1,
                device_id: dev,
                run: ((k - 210 - 120 * configs.len()) % 30 + 1) as usize,
            }),
        forall|k: int|
            210 + 150 * configs.len() <= k < 210 + 180 * configs.len() ==> #[trigger] schedule(
                dev,
                configs,
            )[k] == (TestConfig {
                zkp_type: None,
                function: TestFunction::BaselineRound,
                n: configs[(k - 210 - 150 * configs.len()) / 30].0,
                t: configs[(k - 210 - 150 * configs.len()) / 30].1,
                device_id: dev,
                run: ((k - 210 - 150 * configs.len()) % 30 + 1) as usize,
            }),
{
    let m = configs.len();
    let s = schedule(dev, configs);
    lemma_function_block_at(TestFunction::PartialGen, configs, dev);
    lemma_function_block_at(TestFunction::AggCompute, configs, dev);
    lemma_function_block_at(TestFunction::DKG1, configs, dev);
    lemma_function_block_at(TestFunction::DKG2, configs, dev);
    lemma_function_block_at(TestFunction::DKG3, configs, dev);
    lemma_function_block_at(TestFunction::BaselineRound, configs, dev);
    lemma_function_block_len(TestFunction::PartialGen, configs, dev);
    lemma_function_block_len(TestFunction::AggCompute, configs, dev);
    lemma_function_block_len(TestFunction::DKG1, configs, dev);
    lemma_function_block_len(TestFunction::DKG2, configs, dev);
    lemma_function_block_len(TestFunction::DKG3, configs, dev);
    lemma_function_block_len(TestFunction::BaselineRound, configs, dev);
    let pv = partial_verify_block(dev);
    let z = zkp_block(dev);
    let sc = scaled_block(configs, dev);
    assert(s == pv + z + sc);
    let a = function_block(TestFunction::PartialGen, configs, dev);
    let b = function_block(TestFunction::AggCompute, configs, dev);
    let c = function_block(TestFunction::DKG1, configs, dev);
    let d = function_block(TestFunction::DKG2, configs, dev);
    let e = function_block(TestFunction::DKG3, configs, dev);
    let g = function_block(TestFunction::BaselineRound, configs, dev);
    assert(sc == a + b + c + d + e + g);
    assert forall|k: int| 30 <= k < 210 implies #[trigger] s[k] == z[k - 30] by {}
    assert forall|k: int| 210 <= k < 210 + 180 * m implies #[trigger] s[k] == sc[k - 210] by {}
    assert forall|k: int|
        0 <= k < 180 * m implies #[trigger] sc[k] == (if k < 30 * m {
            a[k]
        } else if k < 60 * m {
            b[k - 30 * m]
        } else if k < 90 * m {
            c[k - 60 * m]
        } else if k < 120 * m {
            d[k - 90 * m]
        } else if k < 150 * m {
            e[k - 120 * m]
        } else {
            g[k - 150 * m]
        }) by {}
}

/// An operation whose cost grows with the network and is measured across the
/// sweep.
pub open spec fn is_scaled(f: TestFunction) -> bool {
    ||| f == TestFunction::PartialGen
    ||| f == TestFunction::AggCompute
    ||| f == TestFunction::DKG1
    ||| f == TestFunction::DKG2
    ||| f == TestFunction::DKG3
    ||| f == TestFunction::BaselineRound
}

/// What holds of every scheduled test: it runs on `dev`; its run number lies
/// in 1..=30; it names a proof system exactly when it generates or verifies a
/// proof; a network-scaled operation runs at a pair of the sweep, every other
/// one at the fixed size.
pub open spec fn entry_ok(c: TestConfig, dev: u32, configs: Seq<(usize, usize)>) -> bool {
    &&& c.device_id == dev
    &&& 1 <= c.run <= 30
    &&& (c.zkp_type is Some <==> (c.function == TestFunction::ProofGen || c.function
        == TestFunction::ProofVerify))
    &&& if is_scaled(c.function) {
        configs.contains((c.n, c.t))
    } else {
        c.n == FIXED_N && c.t == FIXED_T
    }
}

proof fn lemma_function_block_entries(f: TestFunction, configs: Seq<(usize, usize)>, dev: u32, all: Seq<(usize, usize)>)
    requires
        is_scaled(f),
        forall|k: int| 0 <= k < configs.len() ==> all.contains(#[trigger] configs[k]),
    ensures
        forall|i: int|
            0 <= i < function_block(f, configs, dev).len() ==> entry_ok(
                #[trigger] function_block(f, configs, dev)[i],
                dev,
                all,
            ),
    decreases configs.len(),
{
    if configs.len() > 0 {
        let prev = configs.drop_last();
        assert forall|k: int| 0 <= k < prev.len() implies all.contains(#[trigger] prev[k]) by {
            assert(prev[k] == configs[k]);
        }
        lemma_function_block_entries(f, prev, dev, all);
        let last = configs[configs.len() - 1];
        assert(all.contains(last));
        let fb = function_block(f, configs, dev);
        let p = function_block(f, prev, dev);
        let r = runs(None, f, last.0, last.1, dev);
        assert(fb == p + r);
        assert forall|i: int| 0 <= i < fb.len() implies entry_ok(#[trigger] fb[i], dev, all) by {
            if i < p.len() {
                assert(fb[i] == p[i]);
            } else {
                assert(fb[i] == r[i - p.len()]);
            }
        }
    }
}

/// Every scheduled test satisfies `entry_ok`.
pub proof fn law_schedule_entries(dev: u32, configs: Seq<(usize, usize)>)
    ensures
        forall|i: int|
            0 <= i < schedule(dev, configs).len() ==> entry_ok(
                #[trigger] schedule(dev, configs)[i],
                dev,
                configs,
            ),
{
    assert forall|k: int| 0 <= k < configs.len() implies configs.contains(#[trigger] configs[k]) by {}
    lemma_function_block_entries(TestFunction::PartialGen, configs, dev, configs);
    lemma_function_block_entries(TestFunction::AggCompute, configs, dev, configs);
    lemma_function_block_entries(TestFunction::DKG1, configs, dev, configs);
    lemma_function_block_entries(TestFunction::DKG2, configs, dev, configs);
    lemma_function_block_entries(TestFunction::DKG3, configs, dev, configs);
    lemma_function_block_entries(TestFunction::BaselineRound, configs, dev, configs);
    let s = schedule(dev, configs);
    assert forall|i: int| 0 <= i < s.len() implies entry_ok(#[trigger] s[i], dev, configs) by {
        let pv = partial_verify_block(dev);
        let z = zkp_block(dev);
        let a = function_block(TestFunction::PartialGen, configs, dev);
        let b = function_block(TestFunction::AggCompute, configs, dev);
        let c = function_block(TestFunction::DKG1, configs, dev);
        let d = function_block(TestFunction::DKG2, configs, dev);
        let e = function_block(TestFunction::DKG3, configs, dev);
        let g = function_block(TestFunction::BaselineRound, configs, dev);
        if i < pv.len() {
        } else if i < pv.len() + z.len() {
            let j = i - pv.len();
            assert(s[i] == z[j]);
        } else {
            let j = i - pv.len() - z.len();
            let sc = scaled_block(configs, dev);
            assert(s[i] == sc[j]);
            if j < a.len() {
                assert(sc[j] == a[j]);
            } else if j < a.len() + b.len() {
                assert(sc[j] == b[j - a.len()]);
            } else if j < a.len() + b.len() + c.len() {
                assert(sc[j] == c[j - a.len() - b.len()]);
            } else if j < a.len() + b.len() + c.len() + d.len() {
                assert(sc[j] == d[j - a.len() - b.len() - c.len()]);
            } else if j < a.len() + b.len() + c.len() + d.len() + e.len() {
                assert(sc[j] == e[j - a.len() - b.len() - c.len() - d.len()]);
            } else {
                assert(sc[j] == g[j - a.len() - b.len() - c.len() - d.len() - e.len()]);
            }
        }
    }
}

} // verus!
