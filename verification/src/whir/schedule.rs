//! The schedules of the stacked openings.
use vstd::prelude::*;
use vstd::arithmetic::power2::{lemma2_to64, pow2};
use crate::arith::pow2_le;
use crate::whir::config::{folded_vars, pow_feasible, RoundConfig, WhirConfig};
use crate::whir::proving::prover_fits;
use crate::whir::rounds::{left_of, rate_of};
use crate::whir::stacked::StackedWhirProver;

verus! {

/// The sum of the first `k` numbers.
pub open spec fn sum_of(s: Seq<usize>, k: int) -> nat
    decreases k,
{
    if k <= 0 {
        0
    } else {
        sum_of(s, k - 1) + s[k - 1] as nat
    }
}

/// Whether a round folds `ff` variables under the given budget, with no proof of work for
/// a folded variable.
pub open spec fn round_is(
    r: RoundConfig,
    ff: nat,
    queries: nat,
    queries_pow: nat,
    ood: nat,
    log_inv_rate: nat,
) -> bool {
    &&& r.folding_factor == ff
    &&& r.evaluation_domain_log_size == 0
    &&& r.queries_pow_bits == queries_pow
    &&& r.pow_bits@ == Seq::new(ff, |i: int| 0usize)
    &&& r.num_queries == queries
    &&& r.ood_samples == ood
    &&& r.log_inv_rate == log_inv_rate
}

/// Whether a schedule folds `folds[r]` variables in round `r` under a small budget, at a
/// rate that starts at one half and falls by three bits a round.
pub open spec fn is_fold_schedule(c: WhirConfig, folds: Seq<usize>, final_log: nat) -> bool {
    &&& c.starting_ood_samples == 0
    &&& c.starting_log_inv_rate == 1
    &&& c.round_parameters@.len() == folds.len()
    &&& forall|r: int|
        0 <= r < folds.len() ==> round_is(
            #[trigger] c.round_parameters@[r],
            folds[r] as nat,
            4,
            0,
            1,
            (1 + 3 * (r + 1)) as nat,
        )
    &&& c.final_poly_log_degree == final_log
    &&& c.final_queries == 4
    &&& c.final_pow_bits == 0
}

fn zero_bits(n: usize) -> (r: Vec<usize>)
    ensures
        r@ == Seq::new(n as nat, |i: int| 0usize),
{
    let mut r: Vec<usize> = Vec::new();
    let mut i: usize = 0;
    while i < n
        invariant
            i <= n,
            r@.len() == i,
            forall|j: int| 0 <= j < i ==> #[trigger] r@[j] == 0,
        decreases n - i,
    {
        r.push(0);
        i = i + 1;
    }
    proof {
        assert(r@ =~= Seq::new(n as nat, |i: int| 0usize));
    }
    r
}

/// The schedule that folds `folds[r]` variables in round `r` and leaves `final_log`.
pub fn whir_config_for_fold_schedule(lsh: usize, folds: &[usize], final_log: usize) -> (c:
    WhirConfig)
    requires
        folds@.len() > 0,
        forall|r: int| 0 <= r < folds@.len() ==> (#[trigger] folds@[r]) > 0,
        sum_of(folds@, folds@.len() as int) + final_log == lsh,
        1 + 3 * folds@.len() <= usize::MAX,
    ensures
        is_fold_schedule(c, folds@, final_log as nat),
{
    let mut rounds: Vec<RoundConfig> = Vec::new();
    let mut r: usize = 0;
    while r < folds.len()
        invariant
            r <= folds@.len(),
            1 + 3 * folds@.len() <= usize::MAX,
            rounds@.len() == r,
            forall|j: int|
                0 <= j < r ==> round_is(
                    #[trigger] rounds@[j],
                    folds@[j] as nat,
                    4,
                    0,
                    1,
                    (1 + 3 * (j + 1)) as nat,
                ),
        decreases folds@.len() - r,
    {
        rounds.push(
            RoundConfig {
                folding_factor: folds[r],
                evaluation_domain_log_size: 0,
                queries_pow_bits: 0,
                pow_bits: zero_bits(folds[r]),
                num_queries: 4,
                ood_samples: 1,
                log_inv_rate: 1 + 3 * (r + 1),
            },
        );
        r = r + 1;
    }
    WhirConfig {
        starting_ood_samples: 0,
        starting_log_inv_rate: 1,
        round_parameters: rounds,
        final_poly_log_degree: final_log,
        final_queries: 4,
        final_pow_bits: 0,
    }
}

proof fn sum_of_equal(s: Seq<usize>, v: nat, k: int)
    requires
        0 <= k <= s.len(),
        forall|i: int| 0 <= i < s.len() ==> (#[trigger] s[i]) == v,
    ensures
        sum_of(s, k) == k * v,
    decreases k,
{
    if k > 0 {
        sum_of_equal(s, v, k - 1);
        assert(s[k - 1] == v);
        assert((k - 1) * v + v == k * v) by (nonlinear_arith);
    } else {
        assert(k * v == 0) by (nonlinear_arith)
            requires
                k == 0,
        ;
    }
}

/// The schedule that folds `ff` variables a round until `final_log` remain.
pub fn whir_config_for_stack(lsh: usize, ff: usize, final_log: usize) -> (c: WhirConfig)
    requires
        lsh > final_log,
        ff > 0,
        (lsh - final_log) % ff as int == 0,
        1 + 3 * ((lsh - final_log) / ff as int) <= usize::MAX,
    ensures
        is_fold_schedule(
            c,
            Seq::new(((lsh - final_log) / ff as int) as nat, |i: int| ff),
            final_log as nat,
        ),
{
    let n: usize = (lsh - final_log) / ff;
    let mut folds: Vec<usize> = Vec::new();
    let mut i: usize = 0;
    while i < n
        invariant
            i <= n,
            folds@.len() == i,
            forall|j: int| 0 <= j < i ==> #[trigger] folds@[j] == ff,
        decreases n - i,
    {
        folds.push(ff);
        i = i + 1;
    }
    proof {
        vstd::arithmetic::div_mod::lemma_fundamental_div_mod((lsh - final_log) as int, ff as int);
        assert(n * ff == lsh - final_log) by (nonlinear_arith)
            requires
                lsh - final_log == ff as int * (n as int) + 0,
        ;
        assert(n > 0) by (nonlinear_arith)
            requires
                n * ff == lsh - final_log,
                lsh > final_log,
        ;
        sum_of_equal(folds@, ff as nat, n as int);
        assert(folds@ =~= Seq::new(n as nat, |i: int| ff));
    }
    whir_config_for_fold_schedule(lsh, folds.as_slice(), final_log)
}

/// The number of rounds of six variables of the production schedule: as many as leave at
/// most six variables after the first round's three.
pub open spec fn core_sixes(lsh: nat) -> nat {
    if lsh <= 9 {
        0
    } else {
        ((lsh - 4) / 6) as nat
    }
}

/// The number of queries that open the codeword which round `r` reads.
pub open spec fn core_queries(r: int) -> nat {
    if r == 0 {
        71
    } else if r == 1 {
        51
    } else {
        49
    }
}

/// Whether a schedule is the production schedule: folds of three, then sixes; a rate that
/// starts at a quarter and falls by three bits a round; two out-of-domain samples and
/// sixteen bits of work a round.
pub open spec fn is_core_schedule(c: WhirConfig, lsh: nat) -> bool {
    let m = 1 + core_sixes(lsh);
    &&& c.starting_ood_samples == 0
    &&& c.starting_log_inv_rate == 2
    &&& c.round_parameters@.len() == m
    &&& forall|r: int|
        0 <= r < m ==> round_is(
            #[trigger] c.round_parameters@[r],
            if r == 0 {
                3
            } else {
                6
            },
            core_queries(r),
            16,
            2,
            (2 + 3 * (r + 1)) as nat,
        )
    &&& c.final_poly_log_degree == lsh - 3 - 6 * core_sixes(lsh)
    &&& c.final_queries == core_queries(m - 1)
    &&& c.final_pow_bits == 16
}

fn queries_of(r: usize) -> (q: usize)
    ensures
        q == core_queries(r as int),
{
    if r == 0 {
        71
    } else if r == 1 {
        51
    } else {
        49
    }
}

/// The production schedule for a stack of height `2^lsh`.
pub fn core_whir_config(lsh: usize) -> (c: WhirConfig)
    requires
        lsh >= 3,
    ensures
        is_core_schedule(c, lsh as nat),
{
    let mut rem: usize = lsh - 3;
    let mut folds: Vec<usize> = Vec::new();
    folds.push(3);
    proof {
        reveal_with_fuel(sum_of, 2);
    }
    while rem > 6
        invariant
            folds@.len() >= 1,
            folds@[0] == 3,
            forall|i: int| 1 <= i < folds@.len() ==> #[trigger] folds@[i] == 6,
            3 + 6 * (folds@.len() - 1) + rem == lsh,
            sum_of(folds@, folds@.len() as int) + rem == lsh,
            folds@.len() > 1 ==> rem > 0,
        decreases rem,
    {
        let ghost before = folds@;
        folds.push(6);
        rem = rem - 6;
        proof {
            sum_of_prefix(before, folds@, before.len() as int);
        }
    }
    proof {
        assert(folds@.len() == 1 + core_sixes(lsh as nat));
    }
    let mut config = whir_config_for_fold_schedule(lsh, folds.as_slice(), rem);
    config.starting_log_inv_rate = 2;
    let n: usize = config.round_parameters.len();
    let mut rounds: Vec<RoundConfig> = Vec::new();
    let mut r: usize = 0;
    while r < n
        invariant
            r <= n,
            n == folds@.len(),
            n >= 1,
            6 * (n - 1) <= lsh,
            folds@[0] == 3,
            forall|i: int| 1 <= i < folds@.len() ==> #[trigger] folds@[i] == 6,
            rounds@.len() == r,
            forall|j: int|
                0 <= j < r ==> round_is(
                    #[trigger] rounds@[j],
                    if j == 0 {
                        3
                    } else {
                        6
                    },
                    core_queries(j),
                    16,
                    2,
                    (2 + 3 * (j + 1)) as nat,
                ),
        decreases n - r,
    {
        rounds.push(
            RoundConfig {
                folding_factor: folds[r],
                evaluation_domain_log_size: 0,
                queries_pow_bits: 16,
                pow_bits: zero_bits(folds[r]),
                num_queries: queries_of(r),
                ood_samples: 2,
                log_inv_rate: 2 + 3 * (r + 1),
            },
        );
        r = r + 1;
    }
    config.round_parameters = rounds;
    config.final_queries = queries_of(n - 1);
    config.final_pow_bits = 16;
    config
}

proof fn sum_of_prefix(a: Seq<usize>, b: Seq<usize>, k: int)
    requires
        0 <= k <= a.len(),
        a.len() <= b.len(),
        forall|i: int| 0 <= i < a.len() ==> #[trigger] a[i] == b[i],
    ensures
        sum_of(a, k) == sum_of(b, k),
    decreases k,
{
    if k > 0 {
        sum_of_prefix(a, b, k - 1);
        assert(a[k - 1] == b[k - 1]);
    }
}

pub proof fn core_folded(c: WhirConfig, lsh: nat, k: int)
    requires
        lsh >= 3,
        is_core_schedule(c, lsh),
        1 <= k <= c.round_parameters@.len(),
    ensures
        folded_vars(c.round_parameters@, k) == 3 + 6 * (k - 1),
    decreases k,
{
    assert(c.round_parameters@[k - 1].folding_factor == (if k == 1 {
        3int
    } else {
        6
    }));
    if k == 1 {
        assert(folded_vars(c.round_parameters@, 0) == 0);
    } else {
        core_folded(c, lsh, k - 1);
    }
}

/// The production schedule is within the limits of the machine and of the field's
/// two-adicity for every stack of up to `2^25` rows, with any number of commitments that
/// can be opened.
pub proof fn core_schedule_fits(prover: StackedWhirProver, commitments: nat)
    requires
        3 <= prover.log_stacking_height <= 25,
        is_core_schedule(prover.config, prover.log_stacking_height as nat),
        71 * commitments <= usize::MAX,
    ensures
        prover.fits(commitments),
{
    let lsh = prover.log_stacking_height as nat;
    let c = prover.config;
    let rounds = c.round_parameters@;
    let m = rounds.len();
    lemma2_to64();
    core_folded(c, lsh, m as int);
    assert(round_is(rounds[0], 3, 71, 16, 2, 5));
    assert(prover.can_commit()) by {
        pow2_le(lsh + 2, 27);
    }
    assert(core_sixes(lsh) <= 3);
    assert forall|r: int| 0 <= r < m implies {
        &&& (#[trigger] rounds[r]).feasible()
        &&& pow2(rounds[r].folding_factor as nat) * 4 <= usize::MAX
        &&& left_of(lsh, rounds, r + 1) + rate_of(rounds, 2, r) <= 26
        &&& rounds[r].num_queries * (if r == 0 {
            commitments
        } else {
            1
        }) <= usize::MAX
        &&& r + 1 < m ==> 4 * pow2(left_of(lsh, rounds, r + 1) + rounds[r].log_inv_rate as nat)
            <= usize::MAX
    } by {
        assert(round_is(
            rounds[r],
            if r == 0 {
                3
            } else {
                6
            },
            core_queries(r),
            16,
            2,
            (2 + 3 * (r + 1)) as nat,
        ));
        core_folded(c, lsh, r + 1);
        if r > 0 {
            assert(round_is(
                rounds[r - 1],
                if r - 1 == 0 {
                    3
                } else {
                    6
                },
                core_queries(r - 1),
                16,
                2,
                (2 + 3 * r) as nat,
            ));
        }
        assert(pow_feasible(rounds[r].pow_bits@));
        if r + 1 < m {
            pow2_le(left_of(lsh, rounds, r + 1) + rounds[r].log_inv_rate as nat, 29);
        }
    }
    reveal(prover_fits);
}

/// The production schedule in numbers: it folds three variables, then six at a time as long as
/// more than six are left; its codewords start at a rate of a quarter and lose three bits of
/// rate a round; it opens the first codeword at 71 indices, the second at 51 and the others at
/// 49, the last codeword as often as its last round would; and every query phase takes two
/// out-of-domain samples and sixteen bits of work, none of it for a folded variable.
pub proof fn core_schedule_in_numbers(c: WhirConfig, lsh: nat, r: int)
    requires
        lsh >= 3,
        is_core_schedule(c, lsh),
        0 <= r < c.round_parameters@.len(),
    ensures
        ({
            let m = c.round_parameters@.len() as int;
            let p = c.round_parameters@[r];
            let rest = lsh - 3 - 6 * (m - 1);
            &&& 0 <= rest <= 6
            &&& m > 1 ==> rest >= 1
            &&& c.final_poly_log_degree == rest
            &&& p.folding_factor == (if r == 0 {
                3int
            } else {
                6
            })
            &&& p.num_queries == (if r == 0 {
                71int
            } else if r == 1 {
                51
            } else {
                49
            })
            &&& p.log_inv_rate == 5 + 3 * r
            &&& p.queries_pow_bits == 16
            &&& p.ood_samples == 2
            &&& p.pow_bits@.len() == p.folding_factor
            &&& forall|i: int| 0 <= i < p.pow_bits@.len() ==> #[trigger] p.pow_bits@[i] == 0
            &&& c.starting_log_inv_rate == 2
            &&& c.starting_ood_samples == 0
            &&& c.final_pow_bits == 16
            &&& c.final_queries == c.round_parameters@[m - 1].num_queries
        }),
{
    let last = c.round_parameters@[c.round_parameters@.len() - 1];
    let p = c.round_parameters@[r];
}

/// A schedule of given folds in numbers: four queries, one out-of-domain sample and no work a
/// round, and codewords that start at a rate of one half and lose three bits of rate a round.
pub proof fn fold_schedule_in_numbers(c: WhirConfig, folds: Seq<usize>, final_log: nat, r: int)
    requires
        is_fold_schedule(c, folds, final_log),
        0 <= r < folds.len(),
    ensures
        ({
            let p = c.round_parameters@[r];
            &&& c.round_parameters@.len() == folds.len()
            &&& p.folding_factor == folds[r]
            &&& p.num_queries == 4
            &&& p.ood_samples == 1
            &&& p.queries_pow_bits == 0
            &&& p.log_inv_rate == 4 + 3 * r
            &&& p.pow_bits@.len() == folds[r]
            &&& forall|i: int| 0 <= i < p.pow_bits@.len() ==> #[trigger] p.pow_bits@[i] == 0
            &&& c.starting_log_inv_rate == 1
            &&& c.starting_ood_samples == 0
            &&& c.final_queries == 4
            &&& c.final_pow_bits == 0
            &&& c.final_poly_log_degree == final_log
        }),
{
    let p = c.round_parameters@[r];
}

} // verus!
