//! What an accepted WHIR proof says of its messages, its opened rows and the revealed
//! polynomial.
use vstd::prelude::*;
use vstd::arithmetic::power2::{lemma_pow2_pos, pow2};
use crate::dft::domain_generator;
use crate::ext::{add_assoc, add_canon, add_zero, e_one, e_pow, e_zero, embed, epoints, evals, fvals, lift,
    pow_canon, E4};
use crate::merkle::merkle_accepts;
use crate::mle::{esum, esum_canon, mle_eval, mono_value_is_univariate, pow_point, univariate};
use crate::transcript::Sponge;
use crate::whir::interleaved::WhirInterleavedVerifier;
use crate::whir::jagged::{area_stripes, jagged_refusal, resized};
use crate::whir::messages::{LeafVal, ProofVal};
use crate::whir::queries::{query_refusal, query_row, rows_combined, rows_combined_len,
    stripes_combined, stripes_refusal, zero_row, SourceVal};
use crate::whir::config::{folded_vars, pow_bits_at};
use crate::whir::replay::{ood_accepted, ood_sponge, replay_refusal, replay_run,
    term_total, terminal_sum, terms_of, Replay, Term};
use crate::whir::rounds::{Instance, VState};
use crate::whir::stacked::{flat, stripe_powers, StackedWhirVerifier};
use crate::whir::sumcheck::{after_message, batch_coeffs, batched_claim};

verus! {

/// Whether the leaves of a query are those that the roots of a codeword commit to at an
/// index: one row of the width of a fold, or, of a stack, one row for each stripe of each
/// commitment.
pub open spec fn authentic(
    src: SourceVal,
    fold: nat,
    log_height: nat,
    index: nat,
    leaves: Seq<LeafVal>,
    q: nat,
) -> bool {
    match src {
        SourceVal::Single(root, base) => merkle_accepts(
            root,
            Seq::new(
                1,
                |i: int|
                    if base {
                        pow2(fold)
                    } else {
                        pow2(fold) * 4
                    },
            ),
            pow2(log_height),
            index,
            leaves[q as int].rows,
            leaves[q as int].path,
        ),
        SourceVal::Stripes(roots, counts, _) => forall|t: int|
            0 <= t < roots.len() ==> merkle_accepts(
                #[trigger] roots[t],
                Seq::new(counts[t], |i: int| pow2(fold)),
                pow2(log_height),
                index,
                leaves[q * roots.len() + t].rows,
                leaves[q * roots.len() + t].path,
            ),
    }
}

proof fn stripes_authentic(
    roots: Seq<Seq<int>>,
    counts: Seq<nat>,
    fold: nat,
    log_height: nat,
    index: nat,
    leaves: Seq<LeafVal>,
    from: int,
    rows_word: Option<Seq<char>>,
    merkle_word: Seq<char>,
    k: nat,
)
    requires
        stripes_refusal(
            roots,
            counts,
            fold,
            log_height,
            index,
            leaves,
            from,
            rows_word,
            merkle_word,
            k,
        ) is None,
    ensures
        forall|t: int|
            0 <= t < k ==> merkle_accepts(
                #[trigger] roots[t],
                Seq::new(counts[t], |i: int| pow2(fold)),
                pow2(log_height),
                index,
                leaves[from + t].rows,
                leaves[from + t].path,
            ),
    decreases k,
{
    if k > 0 {
        stripes_authentic(
            roots,
            counts,
            fold,
            log_height,
            index,
            leaves,
            from,
            rows_word,
            merkle_word,
            (k - 1) as nat,
        );
        assert(crate::whir::queries::widths(counts[k - 1], pow2(fold)) =~= Seq::new(
            counts[k - 1],
            |i: int| pow2(fold),
        ));
    }
}

proof fn query_authentic(
    src: SourceVal,
    fold: nat,
    log_height: nat,
    index: nat,
    leaves: Seq<LeafVal>,
    q: nat,
    rows_word: Option<Seq<char>>,
    merkle_word: Seq<char>,
)
    requires
        query_refusal(src, fold, log_height, index, leaves, q, rows_word, merkle_word) is None,
    ensures
        authentic(src, fold, log_height, index, leaves, q),
{
    match src {
        SourceVal::Single(root, base) => {
            let w = if base {
                pow2(fold)
            } else {
                pow2(fold) * 4
            };
            assert(crate::whir::queries::widths(1, w) =~= Seq::new(
                1,
                |i: int|
                    if base {
                        pow2(fold)
                    } else {
                        pow2(fold) * 4
                    },
            ));
        },
        SourceVal::Stripes(roots, counts, _) => {
            let from = (q * roots.len()) as int;
            stripes_authentic(
                roots,
                counts,
                fold,
                log_height,
                index,
                leaves,
                from,
                rows_word,
                merkle_word,
                roots.len(),
            );
        },
    }
}

/// The opened rows are read off the leaves: a row of base elements entry by entry, a row of
/// extension elements four entries at a time, lowest coefficient first, and a row of a stack
/// as the sum over the commitments and their stripes of the stripe's power times its entry.
pub proof fn opened_row_is_read_off_the_leaves(
    src: SourceVal,
    fold: nat,
    leaves: Seq<LeafVal>,
    q: nat,
    i: int,
)
    requires
        0 <= i < query_row(src, fold, leaves, q).len(),
    ensures
        match src {
            SourceVal::Single(_, true) => {
                let leaf = leaves[q as int].rows[0];
                &&& query_row(src, fold, leaves, q).len() == leaf.len()
                &&& query_row(src, fold, leaves, q)[i] == embed(leaf[i])
            },
            SourceVal::Single(_, false) => {
                let leaf = leaves[q as int].rows[0];
                let e = query_row(src, fold, leaves, q)[i];
                &&& query_row(src, fold, leaves, q).len() == leaf.len() / 4
                &&& e.c0 == leaf[4 * i]
                &&& e.c1 == leaf[4 * i + 1]
                &&& e.c2 == leaf[4 * i + 2]
                &&& e.c3 == leaf[4 * i + 3]
            },
            SourceVal::Stripes(roots, _, powers) => {
                &&& query_row(src, fold, leaves, q).len() == pow2(fold)
                &&& (forall|t: int, k: int|
                    0 <= t < roots.len() && 0 <= k < leaves[q * roots.len() + t].rows.len()
                        ==> i < (#[trigger] leaves[q * roots.len() + t].rows[k]).len())
                    ==> query_row(src, fold, leaves, q)[i] == esum(
                    roots.len(),
                    |t: int|
                        {
                            let rows = leaves[q * roots.len() + t].rows;
                            esum(rows.len(), |k: int| powers[t][k] * embed(rows[k][i]))
                        },
                )
            },
        },
{
    match src {
        SourceVal::Single(_, _) => {},
        SourceVal::Stripes(roots, _, powers) => {
            let from = (q * roots.len()) as int;
            stripes_len(zero_row(fold), powers, leaves, from, roots.len());
            if forall|t: int, k: int|
                0 <= t < roots.len() && 0 <= k < leaves[q * roots.len() + t].rows.len() ==> i < (
                #[trigger] leaves[q * roots.len() + t].rows[k]).len() {
                assert forall|t: int, k: int|
                    0 <= t < roots.len() && 0 <= k < leaves[from + t].rows.len() implies i < (
                #[trigger] leaves[from + t].rows[k]).len() by {
                    assert(leaves[q * roots.len() + t].rows[k].len() == leaves[from
                        + t].rows[k].len());
                }
                stripes_entry(fold, powers, leaves, from, roots.len(), i);
                let a = |t: int|
                    {
                        let rows = leaves[from + t].rows;
                        esum(rows.len(), |k: int| powers[t][k] * embed(rows[k][i]))
                    };
                let b = |t: int|
                    {
                        let rows = leaves[q * roots.len() + t].rows;
                        esum(rows.len(), |k: int| powers[t][k] * embed(rows[k][i]))
                    };
                crate::mle::esum_ext(roots.len(), a, b);
            }
        },
    }
}

proof fn stripes_len(
    acc: Seq<E4>,
    powers: Seq<Seq<E4>>,
    leaves: Seq<LeafVal>,
    from: int,
    k: nat,
)
    ensures
        stripes_combined(acc, powers, leaves, from, k).len() == acc.len(),
    decreases k,
{
    if k > 0 {
        stripes_len(acc, powers, leaves, from, (k - 1) as nat);
        let rows = leaves[from + k - 1].rows;
        rows_combined_len(
            stripes_combined(acc, powers, leaves, from, (k - 1) as nat),
            rows,
            powers[k - 1],
            rows.len(),
        );
    }
}

proof fn rows_entry(acc: Seq<E4>, rows: Seq<Seq<int>>, powers: Seq<E4>, k: nat, i: int)
    requires
        0 <= i < acc.len(),
        acc[i].canon(),
        k <= rows.len(),
        forall|j: int| 0 <= j < k ==> i < (#[trigger] rows[j]).len(),
    ensures
        rows_combined(acc, rows, powers, k)[i] == acc[i] + esum(
            k,
            |j: int| powers[j] * embed(rows[j][i]),
        ),
    decreases k,
{
    let f = |j: int| powers[j] * embed(rows[j][i]);
    if k > 0 {
        let n = (k - 1) as nat;
        rows_entry(acc, rows, powers, n, i);
        rows_combined_len(acc, rows, powers, n);
        assert(i < rows[k - 1].len());
        assert(lift(rows[k - 1])[i] == embed(rows[k - 1][i]));
        add_assoc(acc[i], esum(n, f), f(k - 1));
    } else {
        add_zero(acc[i]);
    }
}

proof fn stripes_entry(
    fold: nat,
    powers: Seq<Seq<E4>>,
    leaves: Seq<LeafVal>,
    from: int,
    k: nat,
    i: int,
)
    requires
        0 <= i < pow2(fold),
        forall|t: int, j: int|
            0 <= t < k && 0 <= j < leaves[from + t].rows.len() ==> i < (#[trigger] leaves[from
                + t].rows[j]).len(),
    ensures
        stripes_combined(zero_row(fold), powers, leaves, from, k)[i] == esum(
            k,
            |t: int|
                {
                    let rows = leaves[from + t].rows;
                    esum(rows.len(), |j: int| powers[t][j] * embed(rows[j][i]))
                },
        ),
    decreases k,
{
    if k > 0 {
        let n = (k - 1) as nat;
        let f = |t: int|
            {
                let rows = leaves[from + t].rows;
                esum(rows.len(), |j: int| powers[t][j] * embed(rows[j][i]))
            };
        stripes_entry(fold, powers, leaves, from, n, i);
        stripes_len(zero_row(fold), powers, leaves, from, n);
        let acc = stripes_combined(zero_row(fold), powers, leaves, from, n);
        esum_canon(n, f);
        let rows = leaves[from + n].rows;
        assert(leaves[from + k - 1].rows == rows);
        assert forall|j: int| 0 <= j < rows.len() implies i < (#[trigger] rows[j]).len() by {
            assert(leaves[from + n].rows[j].len() == rows[j].len());
        }
        rows_entry(acc, rows, powers[n as int], rows.len(), i);
    }
}

proof fn final_query_accepted(inst: Instance, end: VState, q: nat, k: nat)
    requires
        q < k,
        inst.final_queries_refusal(end, k) is None,
    ensures
        inst.final_queries_refusal(end, q + 1) is None,
    decreases k,
{
    if q + 1 < k {
        final_query_accepted(inst, end, q, (k - 1) as nat);
    }
}

/// The rows that the final queries open are those of the revealed polynomial: in an accepted
/// proof, every opened row is committed to at the index drawn for it, and evaluates at the
/// last round's challenges to the revealed polynomial at that index's point of the domain.
pub proof fn accepted_rows_are_of_the_revealed_polynomial(inst: Instance, start: VState, q: nat)
    requires
        inst.refusal(start) is None,
        inst.m() > 0,
        inst.proof_val.final_poly.len() == pow2(inst.last()),
        q < inst.final_queries,
    ensures
        ({
            let r = inst.m() - 1;
            let end = inst.end(start);
            let leaves = inst.proof_val.openings.last();
            let log = inst.codeword_log(r);
            let index = end.sponge.after_pow(
                inst.final_pow_bits,
                inst.proof_val.final_pow,
            ).drawn_indices(log, inst.final_queries)[q as int] as nat;
            let src = if inst.m() == 1 {
                inst.start
            } else {
                SourceVal::Single(inst.final_root, false)
            };
            let last_challenges = end.challenges.skip(end.challenges.len() - inst.fold(r));
            &&& end.sponge.pow_ok(inst.final_pow_bits, inst.proof_val.final_pow)
            &&& leaves.len() == inst.final_queries * src.leaves_per_query()
            &&& authentic(src, inst.fold(r), log, index, leaves, q)
            &&& mle_eval(query_row(src, inst.fold(r), leaves, q), last_challenges) == univariate(
                inst.proof_val.final_poly,
                e_pow(domain_generator(log), index),
            )
        }),
{
    let r = inst.m() - 1;
    let end = inst.end(start);
    let leaves = inst.proof_val.openings.last();
    let log = inst.codeword_log(r);
    let index = inst.final_indices(end)[q as int] as nat;
    assert(inst.end_refusal(end) is None);
    final_query_accepted(inst, end, q, inst.final_queries);
    query_authentic(
        inst.final_source(),
        inst.fold(r),
        log,
        index,
        leaves,
        q,
        None,
        "final merkle"@,
    );
    let x = e_pow(domain_generator(log), index);
    pow_canon(domain_generator(log), index);
    mono_value_is_univariate(inst.proof_val.final_poly, x, inst.last());
}

/// The claim in the end is the sum of what the collected constraints give on the revealed
/// polynomial.
pub proof fn accepted_claim_is_met(inst: Instance, start: VState)
    requires
        inst.refusal(start) is None,
    ensures
        ({
            let end = inst.end(start);
            esum(
                end.terms.len(),
                |i: int|
                    term_total(
                        end.terms[i],
                        inst.n,
                        inst.last(),
                        end.challenges,
                        inst.proof_val.final_poly,
                    ),
            ) == end.claim
        }),
{
    let end = inst.end(start);
    terminal_is_sum(
        end.terms,
        inst.n,
        inst.last(),
        end.challenges,
        inst.proof_val.final_poly,
        end.terms.len(),
    );
}

pub(crate) proof fn terminal_is_sum(
    terms: Seq<Term>,
    n: nat,
    last: nat,
    all: Seq<E4>,
    f: Seq<E4>,
    k: nat,
)
    ensures
        terminal_sum(terms, n, last, all, f, k) == esum(
            k,
            |i: int| term_total(terms[i], n, last, all, f),
        ),
    decreases k,
{
    if k > 0 {
        terminal_is_sum(terms, n, last, all, f, (k - 1) as nat);
    }
}

proof fn run_accepted(inst: Instance, start: VState, r: int, k: int)
    requires
        0 <= r <= k,
        inst.run_refusal(start, k) is None,
    ensures
        inst.run_refusal(start, r) is None,
    decreases k,
{
    if r < k {
        run_accepted(inst, start, r, k - 1);
    }
}

proof fn folds_accepted(inst: Instance, start: VState, r: int)
    requires
        inst.refusal(start) is None,
        0 <= r < inst.m(),
    ensures
        inst.folds_refusal(inst.run(start, r), r) is None,
        r + 1 < inst.m() ==> inst.opening_refusal(inst.after_folds(inst.run(start, r), r), r) is None,
{
    if r + 1 < inst.m() {
        run_accepted(inst, start, r + 1, inst.m() - 1);
    }
}

pub(crate) proof fn message_accepted(
    begin: Replay,
    msgs: Seq<Seq<E4>>,
    bits: Seq<usize>,
    pows: Seq<int>,
    var: nat,
    k: nat,
    r: int,
    what: Seq<char>,
)
    requires
        var < k,
        replay_refusal(begin, msgs, bits, pows, k, r, what) is None,
    ensures
        replay_refusal(begin, msgs, bits, pows, (var + 1) as nat, r, what) is None,
    decreases k,
{
    if var + 1 < k {
        message_accepted(begin, msgs, bits, pows, var, (k - 1) as nat, r, what);
    }
}

/// The state of round `r` of a proof after `var` of its messages.
pub open spec fn message_state(inst: Instance, start: VState, r: int, var: nat) -> Replay {
    let st = inst.run(start, r);
    replay_run(
        Replay { sponge: st.sponge, claim: st.claim, challenges: st.challenges },
        inst.msgs(r),
        inst.rounds[r].pow_bits@,
        inst.pows_from(r),
        var,
    )
}

/// The messages of an accepted proof chain: every round has one message of three coefficients
/// for each variable that it folds; each one adds up over zero and one to the claim before
/// it, a proof of work follows it, and the claim after it is its value at the challenge drawn
/// next.
pub proof fn accepted_messages_chain(inst: Instance, start: VState, r: int, var: nat)
    requires
        inst.refusal(start) is None,
        0 <= r < inst.m(),
        var < inst.fold(r),
        folded_vars(inst.rounds, r) + r + var < inst.proof_val.pows.len(),
    ensures
        ({
            let msg = if r + 1 == inst.m() {
                inst.proof_val.final_polys[var as int]
            } else {
                inst.proof_val.polys[r][var as int]
            };
            let now = message_state(inst, start, r, var);
            let next = message_state(inst, start, r, var + 1);
            let bits = if var < inst.rounds[r].pow_bits@.len() {
                inst.rounds[r].pow_bits@[var as int] as nat
            } else {
                0
            };
            let seen = now.sponge.observe_ext(msg[0]).observe_ext(msg[1]).observe_ext(msg[2]);
            let pow = inst.proof_val.pows[folded_vars(inst.rounds, r) + r + var];
            let x = seen.after_pow(bits, pow).drawn_ext();
            &&& inst.msgs(r).len() == inst.fold(r)
            &&& msg.len() == 3
            &&& msg[0] + ((msg[0] + msg[1]) + msg[2]) == now.claim
            &&& seen.pow_ok(bits, pow)
            &&& next.claim == (msg[0] + msg[1] * x) + (msg[2] * x) * x
            &&& next.challenges == now.challenges.push(x)
            &&& next.sponge == seen.after_pow(bits, pow).after_draw_ext()
        }),
{
    folds_accepted(inst, start, r);
    let st = inst.run(start, r);
    assert(inst.pows_from(r)[var as int] == inst.proof_val.pows[folded_vars(inst.rounds, r) + r
        + var]);
    message_accepted(
        Replay { sponge: st.sponge, claim: st.claim, challenges: st.challenges },
        inst.msgs(r),
        inst.rounds[r].pow_bits@,
        inst.pows_from(r),
        var,
        inst.fold(r),
        r,
        inst.words.degree,
    );
}

/// The rounds of an accepted proof follow each other: the messages of a round start from the
/// state before it, and what they end with is the state after its folds.
pub proof fn rounds_follow_each_other(inst: Instance, start: VState, r: int)
    requires
        0 <= r < inst.m(),
    ensures
        ({
            let st = inst.run(start, r);
            let first = message_state(inst, start, r, 0);
            let last = message_state(inst, start, r, inst.fold(r));
            let after = inst.after_folds(st, r);
            &&& first.sponge == st.sponge
            &&& first.claim == st.claim
            &&& first.challenges == st.challenges
            &&& last.sponge == after.sponge
            &&& last.claim == after.claim
            &&& last.challenges == after.challenges
            &&& after.terms == st.terms
            &&& inst.run(start, 0) == start
        }),
{
}

proof fn query_accepted(inst: Instance, st: VState, r: int, q: nat, k: nat)
    requires
        q < k,
        inst.queries_refusal(st, r, k) is None,
    ensures
        inst.queries_refusal(st, r, q + 1) is None,
    decreases k,
{
    if q + 1 < k {
        query_accepted(inst, st, r, q, (k - 1) as nat);
    }
}

/// The value that query `q` of round `r` adds to the claim: the opened row at the round's
/// challenges.
pub open spec fn query_value(inst: Instance, st: VState, r: int, q: int) -> E4 {
    mle_eval(
        query_row(
            if r == 0 {
                inst.start
            } else {
                SourceVal::Single(inst.proof_val.roots[r - 1], false)
            },
            inst.fold(r),
            inst.proof_val.openings[r],
            q as nat,
        ),
        st.challenges.skip(st.challenges.len() - inst.fold(r)),
    )
}

/// What an accepted round does after its messages: the root is absorbed, then each
/// out-of-domain answer after its point is drawn, the proof of work is checked, and every
/// query opens a row that the round's codeword commits to at the index drawn for it. The next
/// claim adds the answers and the opened values, weighted by the powers of the challenge that
/// is drawn last.
pub proof fn accepted_round_batches(inst: Instance, start: VState, r: int)
    requires
        inst.refusal(start) is None,
        start.claim.canon(),
        0 <= r,
        r + 1 < inst.m(),
        folded_vars(inst.rounds, r) + r + inst.fold(r) < inst.proof_val.pows.len(),
    ensures
        ({
            let st = inst.after_folds(inst.run(start, r), r);
            let next = inst.run(start, r + 1);
            let answers = inst.proof_val.ood_answers[r];
            let a = answers.len();
            let nq = inst.rounds[r].num_queries as nat;
            let src = if r == 0 {
                inst.start
            } else {
                SourceVal::Single(inst.proof_val.roots[r - 1], false)
            };
            let bits = inst.rounds[r].queries_pow_bits as nat;
            let left = inst.left(r + 1);
            let sampled = ood_sponge(
                st.sponge.observe_all(inst.proof_val.roots[r]),
                answers,
                left,
                a,
            );
            let pow = inst.proof_val.pows[folded_vars(inst.rounds, r) + r + inst.fold(r)];
            let ready = sampled.after_pow(bits, pow);
            let indices = ready.drawn_indices(inst.codeword_log(r), nq);
            let batch = ready.after_draws(nq).drawn_ext();
            &&& sampled.pow_ok(bits, pow)
            &&& inst.proof_val.openings[r].len() == nq * src.leaves_per_query()
            &&& forall|q: int|
                0 <= q < nq ==> #[trigger] authentic(
                    src,
                    inst.fold(r),
                    inst.codeword_log(r),
                    indices[q] as nat,
                    inst.proof_val.openings[r],
                    q as nat,
                )
            &&& next.claim == (st.claim + esum(
                a,
                |j: int| e_pow(batch, (j + 1) as nat) * answers[j],
            )) + esum(
                nq,
                |q: int| e_pow(batch, (a + 1 + q) as nat) * query_value(inst, st, r, q),
            )
            &&& next.sponge == ready.after_draws(nq).after_draw_ext()
            &&& next.challenges == st.challenges
            &&& next.terms.len() == st.terms.len() + a + nq
            &&& forall|i: int| 0 <= i < st.terms.len() ==> #[trigger] next.terms[i] == st.terms[i]
            &&& forall|j: int|
                0 <= j < a ==> #[trigger] next.terms[st.terms.len() + j] == (Term {
                    monomial: false,
                    point: ood_sponge(
                        st.sponge.observe_all(inst.proof_val.roots[r]),
                        answers,
                        inst.left(r + 1),
                        j as nat,
                    ).drawn_exts(inst.left(r + 1)),
                    coeff: e_pow(batch, (j + 1) as nat),
                    vars: inst.left(r + 1),
                })
            &&& forall|q: int|
                0 <= q < nq ==> #[trigger] next.terms[st.terms.len() + a + q] == (Term {
                    monomial: true,
                    point: pow_point(
                        e_pow(domain_generator(inst.codeword_log(r)), indices[q] as nat),
                        inst.left(r + 1),
                    ),
                    coeff: e_pow(batch, (a + 1 + q) as nat),
                    vars: inst.left(r + 1),
                })
        }),
{
    folds_accepted(inst, start, r);
    let st = inst.after_folds(inst.run(start, r), r);
    let answers = inst.proof_val.ood_answers[r];
    let a = answers.len();
    let nq = inst.rounds[r].num_queries as nat;
    let src = inst.source(r);
    let bits = inst.rounds[r].queries_pow_bits as nat;
    let base = folded_vars(inst.rounds, r) + r;
    assert(inst.query_pow(r) == inst.proof_val.pows[base + inst.fold(r)]);
    let ready = inst.pow_sponge(st, r).after_pow(bits, inst.query_pow(r));
    let indices = ready.drawn_indices(inst.codeword_log(r), nq);
    let batch = ready.after_draws(nq).drawn_ext();
    assert(inst.opening_refusal(st, r) is None);
    assert forall|q: int| 0 <= q < nq implies #[trigger] authentic(
        src,
        inst.fold(r),
        inst.codeword_log(r),
        indices[q] as nat,
        inst.proof_val.openings[r],
        q as nat,
    ) by {
        query_accepted(inst, st, r, q as nat, nq);
        query_authentic(
            src,
            inst.fold(r),
            inst.codeword_log(r),
            indices[q] as nat,
            inst.proof_val.openings[r],
            q as nat,
            inst.words.rows,
            "merkle"@,
        );
    }
    let c1 = batch_coeffs(batch, batch, a);
    let c2 = batch_coeffs(e_pow(batch, a + 1), batch, nq);
    let stir = inst.stir_values(st, r);
    let f = |j: int| e_pow(batch, (j + 1) as nat) * answers[j];
    let g = |q: int| e_pow(batch, (a + 1 + q) as nat) * query_value(inst, st, r, q);
    run_claim_canon(inst, start, r);
    assert forall|j: int| 0 <= j < a implies #[trigger] (c1[j] * answers[j]) == f(j) by {
        crate::ext::mul_comm(batch, e_pow(batch, j as nat));
    }
    batched_is_sum(st.claim, answers, c1, a, f);
    assert forall|q: int| 0 <= q < nq implies #[trigger] (c2[q] * stir[q]) == g(q) by {
        pow_add(batch, a + 1, q as nat);
    }
    add_canon(st.claim, esum(a, f));
    batched_is_sum(st.claim + esum(a, f), stir, c2, nq, g);
    let next = inst.run(start, r + 1);
    assert(next == inst.after_queries(st, r));
    let left = inst.left(r + 1);
    let t1 = terms_of(false, inst.ood_points(st, r), c1, left);
    let t2 = terms_of(true, inst.stir_points(st, r), c2, left);
    assert(next.terms == st.terms + t1 + t2);
    let k = st.terms.len();
    assert forall|j: int| 0 <= j < a implies #[trigger] next.terms[k + j] == (Term {
        monomial: false,
        point: ood_sponge(
            st.sponge.observe_all(inst.proof_val.roots[r]),
            answers,
            left,
            j as nat,
        ).drawn_exts(left),
        coeff: e_pow(batch, (j + 1) as nat),
        vars: left,
    }) by {
        assert(next.terms[k + j] == t1[j]);
        crate::ext::mul_comm(batch, e_pow(batch, j as nat));
    }
    assert forall|q: int| 0 <= q < nq implies #[trigger] next.terms[k + a + q] == (Term {
        monomial: true,
        point: pow_point(
            e_pow(domain_generator(inst.codeword_log(r)), indices[q] as nat),
            left,
        ),
        coeff: e_pow(batch, (a + 1 + q) as nat),
        vars: left,
    }) by {
        assert(next.terms[k + a + q] == t2[q]);
        pow_add(batch, a + 1, q as nat);
    }
}

proof fn pow_add(x: E4, a: nat, b: nat)
    ensures
        e_pow(x, a) * e_pow(x, b) == e_pow(x, a + b),
    decreases b,
{
    if b == 0 {
        pow_canon(x, a);
        crate::ext::mul_one(e_pow(x, a));
    } else {
        pow_add(x, a, (b - 1) as nat);
        crate::ext::mul_assoc(e_pow(x, a), e_pow(x, (b - 1) as nat), x);
    }
}

pub(crate) proof fn batched_is_sum(
    claim: E4,
    values: Seq<E4>,
    coeffs: Seq<E4>,
    k: nat,
    f: spec_fn(int) -> E4,
)
    requires
        claim.canon(),
        forall|i: int| 0 <= i < k ==> #[trigger] (coeffs[i] * values[i]) == f(i),
    ensures
        batched_claim(claim, values, coeffs, k as int) == claim + esum(k, f),
    decreases k,
{
    if k > 0 {
        batched_is_sum(claim, values, coeffs, (k - 1) as nat, f);
        assert(coeffs[k - 1] * values[k - 1] == f(k - 1));
        add_assoc(claim, esum((k - 1) as nat, f), f(k - 1));
    } else {
        add_zero(claim);
    }
}

pub(crate) proof fn batched_canon(claim: E4, values: Seq<E4>, coeffs: Seq<E4>, k: int)
    requires
        claim.canon(),
    ensures
        batched_claim(claim, values, coeffs, k).canon(),
{
    if k > 0 {
        add_canon(batched_claim(claim, values, coeffs, k - 1), coeffs[k - 1] * values[k - 1]);
    }
}

proof fn run_claim_canon(inst: Instance, start: VState, r: int)
    requires
        start.claim.canon(),
        0 <= r,
    ensures
        inst.run(start, r).claim.canon(),
        inst.after_folds(inst.run(start, r), r).claim.canon(),
    decreases r,
{
    let st = inst.run(start, r);
    if r > 0 {
        run_claim_canon(inst, start, r - 1);
        let before = inst.after_folds(inst.run(start, r - 1), r - 1);
        let answers = inst.proof_val.ood_answers[r - 1];
        let a = answers.len();
        let q = inst.rounds[r - 1].num_queries as nat;
        let batch = inst.batch_sponge(before, r - 1).drawn_ext();
        let c1 = batch_coeffs(batch, batch, a);
        let c2 = batch_coeffs(e_pow(batch, a + 1), batch, q);
        batched_canon(before.claim, answers, c1, a as int);
        batched_canon(
            batched_claim(before.claim, answers, c1, a as int),
            inst.stir_values(before, r - 1),
            c2,
            q as int,
        );
    }
    let n = inst.fold(r);
    if n > 0 {
        let begin = Replay { sponge: st.sponge, claim: st.claim, challenges: st.challenges };
        let msg = inst.msgs(r)[n - 1];
        let x = after_message(
            replay_run(
                begin,
                inst.msgs(r),
                inst.rounds[r].pow_bits@,
                inst.pows_from(r),
                (n - 1) as nat,
            ).sponge,
            msg,
        ).after_pow(
            pow_bits_at(inst.rounds[r].pow_bits@, n - 1),
            inst.pows_from(r)[n - 1],
        ).drawn_ext();
        add_canon(msg[0] + msg[1] * x, (msg[2] * x) * x);
    }
}

/// What an accepted interleaved opening says: the revealed polynomial has the size that the
/// schedule leaves, the carried starting points are those drawn in turn before their answers,
/// and the rounds start from the claimed value with the starting answers added, weighted by
/// the powers of the challenge drawn after them, and are not refused.
pub proof fn accepted_interleaved_opening(
    v: WhirInterleavedVerifier,
    s: Sponge,
    point: Seq<E4>,
    eval: E4,
    p: ProofVal,
)
    requires
        v.refusal(s, point, eval, p) is None,
        eval.canon(),
    ensures
        ({
            let inst = v.instance(point.len(), p);
            let start = v.start(s, point, eval);
            let seen = s.observe_all(fvals(v.start_commitment@));
            let answers = evals(v.start_ood_answers@);
            let points = epoints(v.start_ood_points@);
            let drawn = ood_sponge(seen, answers, point.len(), answers.len());
            let batch = drawn.drawn_ext();
            &&& p.final_poly.len() == pow2(inst.last())
            &&& forall|i: int|
                0 <= i < answers.len() ==> #[trigger] points[i] == ood_sponge(
                    seen,
                    answers,
                    point.len(),
                    i as nat,
                ).drawn_exts(point.len())
            &&& inst.refusal(start) is None
            &&& start.claim == eval + esum(
                answers.len(),
                |j: int| e_pow(batch, (j + 1) as nat) * answers[j],
            )
            &&& start.sponge == drawn.after_draw_ext()
            &&& start.challenges.len() == 0
            &&& start.terms[0].point == point
            &&& start.terms[0].coeff == e_one()
            &&& !start.terms[0].monomial
            &&& start.terms.len() == answers.len() + 1
            &&& inst.start == SourceVal::Single(fvals(v.start_commitment@), true)
        }),
{
    let seen = s.observe_all(fvals(v.start_commitment@));
    let answers = evals(v.start_ood_answers@);
    let points = epoints(v.start_ood_points@);
    let a = answers.len();
    ood_accepted(seen, answers, points, point.len(), a, 0);
    let batch = ood_sponge(seen, answers, point.len(), a).drawn_ext();
    let f = |j: int| e_pow(batch, (j + 1) as nat) * answers[j];
    let c1 = batch_coeffs(batch, batch, a);
    assert forall|j: int| 0 <= j < a implies #[trigger] (c1[j] * answers[j]) == f(j) by {
        crate::ext::mul_comm(batch, e_pow(batch, j as nat));
    }
    batched_is_sum(eval, answers, c1, a, f);
}

/// What an accepted stacked opening says: there is one list of values for each commitment,
/// with one value for each of its stripes; the values are absorbed before the challenge is
/// drawn whose powers, in the order of the stripes, combine values and stripes alike; and the
/// rounds start from the combined values and are not refused.
pub proof fn accepted_stacked_opening(
    v: StackedWhirVerifier,
    s: Sponge,
    roots: Seq<Seq<int>>,
    counts: Seq<nat>,
    stack_point: Seq<E4>,
    values: Seq<Seq<E4>>,
    p: ProofVal,
)
    requires
        v.refusal(s, roots, counts, stack_point, values, p) is None,
    ensures
        ({
            let (start, lambda) = v.start(s, stack_point, values);
            let all = flat(values, values.len() as int);
            let powers = stripe_powers(values, lambda);
            let inst = v.instance(roots, counts, powers, p);
            &&& p.final_poly.len() == pow2(inst.last())
            &&& values.len() == roots.len()
            &&& counts.len() == roots.len()
            &&& forall|t: int| 0 <= t < roots.len() ==> (#[trigger] values[t]).len() == counts[t]
            &&& lambda == s.observe_exts(all).drawn_ext()
            &&& start.claim == esum(all.len(), |i: int| e_pow(lambda, i as nat) * all[i])
            &&& inst.refusal(start) is None
            &&& inst.start == SourceVal::Stripes(roots, counts, powers)
            &&& start.challenges.len() == 0
            &&& start.terms.len() == 1
            &&& start.terms[0].point == stack_point
            &&& start.terms[0].coeff == e_one()
            &&& !start.terms[0].monomial
        }),
{
    assert(v.shape_refusal(roots, counts, values, p) is None);
}

/// What an accepted opening of one long polynomial says: the point addresses a stripe and the
/// stripes, every commitment holds whole stripes, the stripes' values, padded with zeros,
/// have the claimed value at the coordinates that address the stripes, and the stacked opening
/// at the others is not refused. And what says so is accepted.
pub proof fn accepted_jagged_opening(
    v: StackedWhirVerifier,
    s: Sponge,
    roots: Seq<Seq<int>>,
    areas: Seq<usize>,
    point: Seq<E4>,
    values: Seq<Seq<E4>>,
    p: ProofVal,
    claim: E4,
)
    ensures
        area_stripes(areas, v.log_stacking_height as nat).len() == areas.len(),
        forall|i: int|
            0 <= i < areas.len() ==> #[trigger] area_stripes(
                areas,
                v.log_stacking_height as nat,
            )[i] == areas[i] as nat / pow2(v.log_stacking_height as nat),
        (jagged_refusal(v, s, roots, areas, point, values, p, claim) is None) == ({
            let lsh = v.log_stacking_height as nat;
            let all = flat(values, values.len() as int);
            let size = pow2((point.len() - lsh) as nat);
            let padded = Seq::new(
                size,
                |i: int|
                    if i < all.len() {
                        all[i]
                    } else {
                        e_zero()
                    },
            );
            &&& point.len() >= lsh
            &&& forall|i: int|
                0 <= i < areas.len() ==> (#[trigger] areas[i]) as nat % pow2(lsh) == 0
            &&& mle_eval(padded, point.skip(lsh as int)) == claim
            &&& v.refusal(
                s,
                roots,
                area_stripes(areas, lsh),
                point.take(lsh as int),
                values,
                p,
            ) is None
        }),
{
    let lsh = v.log_stacking_height as nat;
    let all = flat(values, values.len() as int);
    lemma_pow2_pos(lsh);
    if point.len() >= lsh {
        let high = point.skip(lsh as int);
        let size = pow2((point.len() - lsh) as nat);
        assert(resized(all, pow2(high.len())) =~= Seq::new(
            size,
            |i: int|
                if i < all.len() {
                    all[i]
                } else {
                    e_zero()
                },
        ));
    }
}

/// Out-of-domain samples are drawn and answered in turn: the point of a sample is drawn before
/// its answer is absorbed.
pub proof fn samples_are_answered_in_turn(s: Sponge, answers: Seq<E4>, vars: nat, k: nat)
    requires
        k < answers.len(),
    ensures
        ood_sponge(s, answers, vars, 0) == s,
        ood_sponge(s, answers, vars, k + 1) == ood_sponge(s, answers, vars, k).after_draw_exts(
            vars,
        ).observe_ext(answers[k as int]),
{
}

/// The power of a stripe is that of its place among the stripes of all commitments.
pub proof fn stripe_powers_count_the_stripes(values: Seq<Seq<E4>>, lambda: E4, t: int, i: int)
    requires
        0 <= t < values.len(),
        0 <= i < values[t].len(),
    ensures
        ({
            let at = flat(values, t).len() + i;
            &&& stripe_powers(values, lambda)[t][i] == e_pow(lambda, at as nat)
            &&& at < flat(values, values.len() as int).len()
            &&& flat(values, values.len() as int)[at] == values[t][i]
        }),
{
    flat_entry(values, t, i, values.len() as int);
}

proof fn flat_entry(values: Seq<Seq<E4>>, t: int, i: int, k: int)
    requires
        0 <= t < k <= values.len(),
        0 <= i < values[t].len(),
    ensures
        flat(values, t).len() + i < flat(values, k).len(),
        flat(values, k)[flat(values, t).len() + i] == values[t][i],
    decreases k,
{
    if t < k - 1 {
        flat_entry(values, t, i, k - 1);
    }
}

} // verus!
