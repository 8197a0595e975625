//! Honest proofs are accepted.
use vstd::prelude::*;
use vstd::arithmetic::power2::{lemma_pow2_pos, lemma_pow2_unfold, pow2};
use crate::dft::domain_point;
use crate::ext::{add_canon, add_zero, all_canon, e_one, e_pow, e_zero, lift, mul_add, mul_assoc,
    mul_canon, mul_one, mul_zero, pow_canon, E4};
use crate::mle::{dot, eq_prod, eq_tab, eq_weight_canon, esum_add, esum_canon, esum_ext, esum_scale,
    esum_zero, fold, fold_add, fold_all, fold_canon, fold_eq_tab, fold_mono_tab, fold_scale,
    mle_eval, mle_eval_is_weighted_sum, mono_prod, mono_tab, mono_value, mono_value_is_univariate,
    pow_point, pow_point_len, round_c0, round_c2, round_ends, round_keeps_claim, vadd, vscale};
use crate::ring::{eq1, mono1};
use crate::merkle::{merkle_root, widths_of};
use crate::transcript::Sponge;
use crate::whir::config::{folded_vars, folded_vars_monotone, pow_bits_at};
use crate::whir::encode::{base_leaf, cell_bound, codeword, ext_leaf, ext_matrix,
    folded_row_is_univariate, row_at};
use crate::whir::honest::{leaves_accepted, opened_leaf, opened_leaves, Prover, PState, RoundData,
    TreeVal};
use crate::whir::messages::LeafVal;
use crate::whir::queries::{query_refusal, query_row, rows_combined, rows_combined_len,
    stripes_combined, stripes_refusal, widths, zero_row, SourceVal};
use crate::whir::replay::{replay_refusal, replay_run, term_fits, terminal_sum, terms_of, Replay,
    Term};
use crate::whir::rounds::{terms_fit, Instance, VState};
use crate::whir::sumcheck::{absorbed, absorbed_canon, absorbed_len, batch_coeffs, batched_claim,
    eq_tables, fold_pows_found, fold_run, is_grind, mono_tables, pow_sponge, FoldRun, FolderVal};

verus! {

/// A sequence of `2^cur` zeros.
pub open spec fn zeros(cur: nat) -> Seq<E4> {
    Seq::new(pow2(cur), |i: int| e_zero())
}

/// The table of a basis at a point.
pub open spec fn basis_tab(monomial: bool, point: Seq<E4>) -> Seq<E4> {
    if monomial {
        mono_tab(point)
    } else {
        eq_tab(point)
    }
}

/// The product of the one-variable factors of a basis.
pub open spec fn basis_prod(monomial: bool, a: Seq<E4>, b: Seq<E4>) -> E4 {
    if monomial {
        mono_prod(a, b)
    } else {
        eq_prod(a, b)
    }
}

/// One one-variable factor of a basis.
pub open spec fn basis1(monomial: bool, a: E4, b: E4) -> E4 {
    if monomial {
        mono1(a, b)
    } else {
        eq1(a, b)
    }
}

/// What folding down to `cur` variables has made of a constraint's coefficient.
pub open spec fn term_scale(t: Term, n: nat, all: Seq<E4>, cur: nat) -> E4 {
    let j = t.vars - cur;
    t.coeff * basis_prod(
        t.monomial,
        t.point.take(j),
        all.subrange(n - t.vars, n - t.vars + j),
    )
}

/// The weight that the first `k` constraints make over the last `cur` variables.
pub open spec fn weight_of(terms: Seq<Term>, n: nat, all: Seq<E4>, cur: nat, k: nat) -> Seq<E4>
    decreases k,
{
    if k == 0 {
        zeros(cur)
    } else {
        let t = terms[k - 1];
        vadd(
            weight_of(terms, n, all, cur, (k - 1) as nat),
            vscale(
                term_scale(t, n, all, cur),
                basis_tab(t.monomial, t.point.skip(t.vars - cur)),
            ),
        )
    }
}

proof fn weight_of_len(terms: Seq<Term>, n: nat, all: Seq<E4>, cur: nat, k: nat)
    ensures
        weight_of(terms, n, all, cur, k).len() == pow2(cur),
    decreases k,
{
    if k > 0 {
        weight_of_len(terms, n, all, cur, (k - 1) as nat);
    }
}

proof fn eq_prod_push(a: Seq<E4>, b: Seq<E4>, x: E4, y: E4)
    requires
        a.len() == b.len(),
    ensures
        eq_prod(a.push(x), b.push(y)) == eq_prod(a, b) * eq1(x, y),
        mono_prod(a.push(x), b.push(y)) == mono_prod(a, b) * mono1(x, y),
    decreases a.len(),
{
    let pa = a.push(x);
    let pb = b.push(y);
    if a.len() == 0 {
        reveal_with_fuel(eq_prod, 2);
        reveal_with_fuel(mono_prod, 2);
        assert(pa.skip(1) =~= Seq::<E4>::empty());
        assert(pb.skip(1) =~= Seq::<E4>::empty());
        add_canon(x * y, (e_one() - x) * (e_one() - y));
        add_canon(e_one() - y, y * x);
        mul_one(eq1(x, y));
        mul_one(mono1(x, y));
    } else {
        assert(pa.skip(1) =~= a.skip(1).push(x));
        assert(pb.skip(1) =~= b.skip(1).push(y));
        eq_prod_push(a.skip(1), b.skip(1), x, y);
        mul_assoc(eq1(a[0], b[0]), eq_prod(a.skip(1), b.skip(1)), eq1(x, y));
        mul_assoc(mono1(a[0], b[0]), mono_prod(a.skip(1), b.skip(1)), mono1(x, y));
    }
}

proof fn vscale_vscale(a: E4, b: E4, s: Seq<E4>)
    ensures
        vscale(a, vscale(b, s)) == vscale(a * b, s),
{
    assert forall|i: int| 0 <= i < s.len() implies a * (b * (#[trigger] s[i])) == (a * b) * s[i] by {
        mul_assoc(a, b, s[i]);
    }
    assert(vscale(a, vscale(b, s)) =~= vscale(a * b, s));
}

/// Folding the weight of the constraints is the weight of the constraints after one
/// more challenge.
proof fn fold_weight_of(terms: Seq<Term>, n: nat, all: Seq<E4>, cur: nat, r: E4, k: nat)
    requires
        0 < cur <= n,
        all.len() == n - cur,
        k <= terms.len(),
        terms_fit(terms, n, cur),
    ensures
        fold(weight_of(terms, n, all, cur, k), r) == weight_of(
            terms,
            n,
            all.push(r),
            (cur - 1) as nat,
            k,
        ),
    decreases k,
{
    let next = (cur - 1) as nat;
    lemma_pow2_unfold(cur);
    if k == 0 {
        assert forall|i: int| 0 <= i < pow2(next) implies fold(zeros(cur), r)[i] == e_zero() by {
            crate::ring::lerp_const(e_zero(), r);
        }
        assert(fold(zeros(cur), r) =~= zeros(next));
    } else {
        let t = terms[k - 1];
        assert(term_fits(t, n, cur));
        let j = t.vars - cur;
        let prev = weight_of(terms, n, all, cur, (k - 1) as nat);
        fold_weight_of(terms, n, all, cur, r, (k - 1) as nat);
        weight_of_len(terms, n, all, cur, (k - 1) as nat);
        let q = t.point.skip(j);
        let tab = basis_tab(t.monomial, q);
        let s = term_scale(t, n, all, cur);
        fold_add(prev, vscale(s, tab), r);
        fold_scale(s, tab, r);
        fold_eq_tab(q, r);
        fold_mono_tab(q, r);
        assert(q.skip(1) =~= t.point.skip(j + 1));
        let rest = basis_tab(t.monomial, q.skip(1));
        let one = basis1(t.monomial, q[0], r);
        vscale_vscale(s, one, rest);
        let a = t.point.take(j);
        let b = all.subrange(n - t.vars, n - t.vars + j);
        eq_prod_push(a, b, q[0], r);
        assert(t.point.take(j + 1) =~= a.push(q[0]));
        assert(all.push(r).subrange(n - t.vars, n - t.vars + j + 1) =~= b.push(r));
        mul_assoc(t.coeff, basis_prod(t.monomial, a, b), one);
        assert(term_scale(t, n, all.push(r), next) == s * one);
        assert(t.vars - next == j + 1);
    }
}

/// An inner product distributes over a sum of weights.
proof fn dot_vadd(a: Seq<E4>, b: Seq<E4>, f: Seq<E4>)
    requires
        a.len() == b.len(),
    ensures
        dot(vadd(a, b), f) == dot(a, f) + dot(b, f),
{
    let u = |i: int| a[i] * f[i];
    let v = |i: int| b[i] * f[i];
    let both = |i: int| u(i) + v(i);
    let sum = |i: int| vadd(a, b)[i] * f[i];
    assert forall|i: int| 0 <= i < a.len() implies #[trigger] sum(i) == both(i) by {
        mul_add(f[i], a[i], b[i]);
    }
    esum_ext(a.len(), sum, both);
    esum_add(a.len(), u, v);
}

/// An inner product with a scaled weight is the scaled inner product.
proof fn dot_vscale(k: E4, a: Seq<E4>, f: Seq<E4>)
    ensures
        dot(vscale(k, a), f) == k * dot(a, f),
{
    let u = |i: int| a[i] * f[i];
    let scaled = |i: int| k * u(i);
    let got = |i: int| vscale(k, a)[i] * f[i];
    assert forall|i: int| 0 <= i < a.len() implies #[trigger] got(i) == scaled(i) by {
        mul_assoc(k, a[i], f[i]);
    }
    esum_ext(a.len(), got, scaled);
    esum_scale(a.len(), k, u);
}

/// Over the last variables, the inner product of the constraints' weight with the
/// revealed polynomial is the verifier's terminal sum.
pub proof fn dot_weight_is_terminal_sum(
    terms: Seq<Term>,
    n: nat,
    last: nat,
    all: Seq<E4>,
    f: Seq<E4>,
    k: nat,
)
    requires
        k <= terms.len(),
        f.len() == pow2(last),
        all_canon(f),
        all.len() == n - last,
        terms_fit(terms, n, last),
    ensures
        dot(weight_of(terms, n, all, last, k), f) == terminal_sum(terms, n, last, all, f, k),
    decreases k,
{
    if k == 0 {
        let z = |i: int| zeros(last)[i] * f[i];
        assert forall|i: int| 0 <= i < pow2(last) implies #[trigger] z(i) == e_zero() by {
            mul_zero(f[i]);
        }
        esum_zero(pow2(last), z);
    } else {
        let t = terms[k - 1];
        assert(term_fits(t, n, last));
        let prev = weight_of(terms, n, all, last, (k - 1) as nat);
        dot_weight_is_terminal_sum(terms, n, last, all, f, (k - 1) as nat);
        weight_of_len(terms, n, all, last, (k - 1) as nat);
        let j = t.vars - last;
        let q = t.point.skip(j);
        let tab = basis_tab(t.monomial, q);
        let s = term_scale(t, n, all, last);
        dot_vadd(prev, vscale(s, tab), f);
        dot_vscale(s, tab, f);
        if !t.monomial {
            mle_eval_is_weighted_sum(f, q);
        }
    }
}

/// Batching values into a claim keeps it the inner product, where each value is the
/// inner product of its table with the polynomial.
pub proof fn batching_keeps_claim(
    w: Seq<E4>,
    f: Seq<E4>,
    tables: Seq<Seq<E4>>,
    values: Seq<E4>,
    coeffs: Seq<E4>,
    k: int,
)
    requires
        0 <= k <= values.len(),
        k <= tables.len(),
        forall|i: int| 0 <= i < k ==> (#[trigger] tables[i]).len() == w.len(),
        forall|i: int| 0 <= i < k ==> #[trigger] values[i] == dot(tables[i], f),
    ensures
        batched_claim(dot(w, f), values, coeffs, k) == dot(absorbed(w, tables, coeffs, k), f),
    decreases k,
{
    if k > 0 {
        batching_keeps_claim(w, f, tables, values, coeffs, k - 1);
        absorbed_len(w, tables, coeffs, k - 1);
        let prev = absorbed(w, tables, coeffs, k - 1);
        assert(tables[k - 1].len() == w.len());
        assert(values[k - 1] == dot(tables[k - 1], f));
        dot_vadd(prev, vscale(coeffs[k - 1], tables[k - 1]), f);
        dot_vscale(coeffs[k - 1], tables[k - 1], f);
    }
}

/// The tables that several points have in a basis.
pub open spec fn basis_tables(monomial: bool, points: Seq<Seq<E4>>) -> Seq<Seq<E4>> {
    if monomial {
        mono_tables(points)
    } else {
        eq_tables(points)
    }
}

/// Appending constraints over the current variables adds their tables to the weight.
pub proof fn weight_of_append(
    terms: Seq<Term>,
    monomial: bool,
    points: Seq<Seq<E4>>,
    coeffs: Seq<E4>,
    n: nat,
    all: Seq<E4>,
    cur: nat,
    k: int,
)
    requires
        0 <= k <= coeffs.len(),
        coeffs.len() <= points.len(),
        all_canon(coeffs),
        cur <= n,
        all.len() == n - cur,
    ensures
        weight_of(
            terms + terms_of(monomial, points, coeffs, cur),
            n,
            all,
            cur,
            (terms.len() + k) as nat,
        ) == absorbed(
            weight_of(terms, n, all, cur, terms.len()),
            basis_tables(monomial, points),
            coeffs,
            k,
        ),
    decreases k,
{
    let added = terms_of(monomial, points, coeffs, cur);
    let both = terms + added;
    if k == 0 {
        weight_of_prefix(terms, both, n, all, cur, terms.len());
    } else {
        weight_of_append(terms, monomial, points, coeffs, n, all, cur, k - 1);
        let t = both[terms.len() + k - 1];
        assert(t == added[k - 1]);
        assert(t.point.take(0) =~= Seq::<E4>::empty());
        assert(t.point.skip(0) =~= t.point);
        assert(coeffs[k - 1].canon());
        mul_one(coeffs[k - 1]);
        assert(term_scale(t, n, all, cur) == coeffs[k - 1]);
        assert((terms.len() + k - 1) as nat == (terms.len() + (k - 1)) as nat);
    }
}

proof fn weight_of_prefix(
    a: Seq<Term>,
    b: Seq<Term>,
    n: nat,
    all: Seq<E4>,
    cur: nat,
    k: nat,
)
    requires
        k <= a.len(),
        k <= b.len(),
        forall|i: int| 0 <= i < k ==> #[trigger] a[i] == b[i],
    ensures
        weight_of(a, n, all, cur, k) == weight_of(b, n, all, cur, k),
    decreases k,
{
    if k > 0 {
        weight_of_prefix(a, b, n, all, cur, (k - 1) as nat);
        assert(a[k - 1] == b[k - 1]);
    }
}

/// The weight of a single constraint over all variables is its table.
pub proof fn weight_of_first(point: Seq<E4>, n: nat)
    requires
        point.len() == n,
    ensures
        weight_of(
            seq![Term { monomial: false, point, coeff: e_one(), vars: n }],
            n,
            Seq::empty(),
            n,
            1,
        ) == eq_tab(point),
{
    let t = Term { monomial: false, point, coeff: e_one(), vars: n };
    let terms = seq![t];
    assert(point.take(0) =~= Seq::<E4>::empty());
    assert(point.skip(0) =~= point);
    mul_one(e_one());
    assert(term_scale(t, n, Seq::empty(), n) == e_one());
    let tab = eq_tab(point);
    assert(weight_of(terms, n, Seq::empty(), n, 0) == zeros(n));
    assert(weight_of(terms, n, Seq::empty(), n, 1) == vadd(zeros(n), vscale(e_one(), tab)));
    assert forall|i: int| 0 <= i < pow2(n) implies vadd(zeros(n), vscale(e_one(), tab))[i]
        == tab[i] by {
        eq_weight_canon(point, i);
        mul_one(tab[i]);
        add_zero(tab[i]);
    }
    assert(vadd(zeros(n), vscale(e_one(), tab)) =~= tab);
}

/// A folder that is honest over `2^cur` canonical values, with the weight of its
/// constraints.
#[verifier::opaque]
pub open spec fn sound_folder(
    folder: FolderVal,
    terms: Seq<Term>,
    n: nat,
    all: Seq<E4>,
    cur: nat,
) -> bool {
    &&& cur <= n
    &&& all.len() == n - cur
    &&& folder.f.len() == pow2(cur)
    &&& folder.w.len() == pow2(cur)
    &&& all_canon(folder.f)
    &&& all_canon(folder.w)
    &&& folder.honest()
    &&& terms_fit(terms, n, cur)
    &&& folder.w == weight_of(terms, n, all, cur, terms.len())
}

/// One fold keeps a folder honest, with the weight of its constraints.
pub proof fn fold_keeps_folder(
    folder: FolderVal,
    terms: Seq<Term>,
    n: nat,
    all: Seq<E4>,
    cur: nat,
    r: E4,
)
    requires
        sound_folder(folder, terms, n, all, cur),
        cur > 0,
    ensures
        sound_folder(folder.folded(r), terms, n, all.push(r), (cur - 1) as nat),
{
    reveal(sound_folder);
    lemma_pow2_unfold(cur);
    fold_canon(folder.f, r);
    fold_canon(folder.w, r);
    round_keeps_claim(folder.f, folder.w, r);
    fold_weight_of(terms, n, all, cur, r, terms.len());
    assert forall|i: int| 0 <= i < terms.len() implies term_fits(
        #[trigger] terms[i],
        n,
        (cur - 1) as nat,
    ) by {
        assert(term_fits(terms[i], n, cur));
    }
}

/// Replaying honest messages reaches the prover's state, without a refusal.
#[verifier::rlimit(60)]
#[verifier::spinoff_prover]
pub proof fn replay_of_honest_folds(
    start: FoldRun,
    terms: Seq<Term>,
    n: nat,
    cur: nat,
    msgs: Seq<Seq<E4>>,
    bits: Seq<usize>,
    pows: Seq<int>,
    k: nat,
    round: int,
    what: Seq<char>,
)
    requires
        sound_folder(start.folder, terms, n, start.challenges, cur),
        k <= cur,
        k <= msgs.len(),
        fold_pows_found(start, bits, pows, k),
        k <= pows.len(),
        forall|i: int|
            0 <= i < k ==> #[trigger] msgs[i] == fold_run(
                start,
                bits,
                pows,
                i as nat,
            ).folder.message(),
    ensures
        ({
            let from = Replay {
                sponge: start.sponge,
                claim: start.folder.claim,
                challenges: start.challenges,
            };
            let e = fold_run(start, bits, pows, k);
            &&& replay_refusal(from, msgs, bits, pows, k, round, what) is None
            &&& replay_run(from, msgs, bits, pows, k) == (Replay {
                sponge: e.sponge,
                claim: e.folder.claim,
                challenges: e.challenges,
            })
            &&& sound_folder(e.folder, terms, n, e.challenges, (cur - k) as nat)
            &&& e.folder.f == fold_all(start.folder.f, e.challenges.skip(start.challenges.len() as int))
        }),
    decreases k,
{
    reveal(sound_folder);
    let base = start.challenges.len() as int;
    if k == 0 {
        assert(start.challenges.skip(base) =~= Seq::<E4>::empty());
    } else {
        let j = (k - 1) as nat;
        assert forall|i: int| 0 <= i < j implies is_grind(
            pow_sponge(start, bits, pows, i as nat),
            pow_bits_at(bits, i),
            #[trigger] pows[i],
        ) by {}
        replay_of_honest_folds(start, terms, n, cur, msgs, bits, pows, j, round, what);
        let at = fold_run(start, bits, pows, j);
        let e = fold_run(start, bits, pows, k);
        assert(msgs[j as int] == at.folder.message());
        assert(is_grind(pow_sponge(start, bits, pows, j), pow_bits_at(bits, j as int), pows[j as int]));
        let (f, w) = (at.folder.f, at.folder.w);
        esum_canon(f.len() / 2, |i: int| w[2 * i] * f[2 * i]);
        esum_canon(
            f.len() / 2,
            |i: int| (f[2 * i + 1] - f[2 * i]) * (w[2 * i + 1] - w[2 * i]),
        );
        esum_canon(w.len(), |i: int| w[i] * f[i]);
        round_ends(round_c0(f, w), round_c2(f, w), at.folder.claim);
        let r = e.challenges.last();
        fold_keeps_folder(at.folder, terms, n, at.challenges, (cur - j) as nat, r);
        crate::whir::sumcheck::fold_run_challenges(start, bits, pows, j);
        fold_all_push(start.folder.f, at.challenges.skip(base), r);
        assert(e.challenges.skip(base) =~= at.challenges.skip(base).push(r));
    }
}

/// Folding at one more challenge is folding the folded polynomial.
pub proof fn fold_all_push(f: Seq<E4>, rs: Seq<E4>, r: E4)
    ensures
        fold_all(f, rs.push(r)) == fold(fold_all(f, rs), r),
    decreases rs.len(),
{
    if rs.len() == 0 {
        reveal_with_fuel(fold_all, 2);
        assert(rs.push(r).skip(1) =~= Seq::<E4>::empty());
    } else {
        assert(rs.push(r).skip(1) =~= rs.skip(1).push(r));
        fold_all_push(fold(f, rs[0]), rs.skip(1), r);
    }
}

/// A replay depends on the proofs of work of its own messages only.
proof fn replay_ext(
    start: Replay,
    msgs: Seq<Seq<E4>>,
    bits: Seq<usize>,
    p: Seq<int>,
    q: Seq<int>,
    k: nat,
    round: int,
    what: Seq<char>,
)
    requires
        forall|i: int| 0 <= i < k ==> #[trigger] p[i] == q[i],
    ensures
        replay_run(start, msgs, bits, p, k) == replay_run(start, msgs, bits, q, k),
        replay_refusal(start, msgs, bits, p, k, round, what) == replay_refusal(
            start,
            msgs,
            bits,
            q,
            k,
            round,
            what,
        ),
    decreases k,
{
    if k > 0 {
        replay_ext(start, msgs, bits, p, q, (k - 1) as nat, round, what);
        assert(p[k - 1] == q[k - 1]);
    }
}

/// The polynomial that stripes make, combined by their powers: the first `k`
/// commitments over `v` variables.
pub open spec fn virtual_poly(
    stripes: Seq<Seq<Seq<int>>>,
    powers: Seq<Seq<E4>>,
    v: nat,
    k: nat,
) -> Seq<E4>
    decreases k,
{
    if k == 0 {
        zeros(v)
    } else {
        rows_combined(
            virtual_poly(stripes, powers, v, (k - 1) as nat),
            stripes[k - 1],
            powers[k - 1],
            stripes[k - 1].len(),
        )
    }
}

/// Whether a tree holds the codewords of base-field polynomials over `v` variables.
pub open spec fn tree_encodes(
    tree: TreeVal,
    polys: Seq<Seq<int>>,
    fold: nat,
    v: nat,
    log_height: nat,
) -> bool {
    &&& tree.len() == polys.len()
    &&& forall|k: int|
        0 <= k < polys.len() ==> {
            &&& (#[trigger] polys[k]).len() == pow2(v)
            &&& lift(tree[k].0) == codeword(lift(polys[k]), fold, log_height)
            &&& tree[k].1 == pow2(fold)
        }
}

/// Whether a source and its trees encode the polynomial `f` over `v` variables. A
/// stack encodes the combination of its stripes.
pub open spec fn source_encodes(
    src: SourceVal,
    trees: Seq<TreeVal>,
    f: Seq<E4>,
    fold: nat,
    v: nat,
    log_height: nat,
    stripes: Seq<Seq<Seq<int>>>,
) -> bool {
    match src {
        SourceVal::Single(root, base) => {
            &&& trees.len() == 1
            &&& trees[0].len() == 1
            &&& root == merkle_root(trees[0])
            &&& if base {
                &&& lift(trees[0][0].0) == codeword(f, fold, log_height)
                &&& trees[0][0].1 == pow2(fold)
            } else {
                trees[0][0] == ext_matrix(f, fold, log_height)
            }
        },
        SourceVal::Stripes(roots, counts, powers) => {
            &&& src.consistent()
            &&& trees.len() == roots.len()
            &&& stripes.len() == roots.len()
            &&& forall|i: int|
                0 <= i < roots.len() ==> {
                    &&& (#[trigger] roots[i]) == merkle_root(trees[i])
                    &&& counts[i] == trees[i].len()
                    &&& tree_encodes(trees[i], stripes[i], fold, v, log_height)
                }
            &&& f == virtual_poly(stripes, powers, v, roots.len())
        },
    }
}

proof fn row_at_vadd(a: Seq<E4>, p: E4, b: Seq<E4>, width: nat, rows: nat, x: E4)
    requires
        a.len() == b.len(),
        a.len() == rows * width,
    ensures
        row_at(vadd(a, vscale(p, b)), width, rows, x) == vadd(
            row_at(a, width, rows, x),
            vscale(p, row_at(b, width, rows, x)),
        ),
{
    let s = vadd(a, vscale(p, b));
    let left = row_at(s, width, rows, x);
    let right = vadd(row_at(a, width, rows, x), vscale(p, row_at(b, width, rows, x)));
    assert forall|c: int| 0 <= c < width implies left[c] == right[c] by {
        let fa = |h: int| a[h * width + c] * e_pow(x, h as nat);
        let fb = |h: int| b[h * width + c] * e_pow(x, h as nat);
        let pb = |h: int| p * fb(h);
        let both = |h: int| fa(h) + pb(h);
        let fs = |h: int| s[h * width + c] * e_pow(x, h as nat);
        assert forall|h: int| 0 <= h < rows implies #[trigger] fs(h) == both(h) by {
            cell_bound(h, c, rows as int, width as int);
            let t = h * width + c;
            let y = e_pow(x, h as nat);
            mul_add(y, a[t], p * b[t]);
            mul_assoc(p, b[t], y);
        }
        esum_ext(rows, fs, both);
        esum_add(rows, fa, pb);
        esum_scale(rows, p, fb);
    }
    assert(left =~= right);
}

/// The row of a combination of polynomials is the combination of their rows.
proof fn row_at_rows_combined(
    acc: Seq<E4>,
    polys: Seq<Seq<int>>,
    leaf: Seq<Seq<int>>,
    powers: Seq<E4>,
    width: nat,
    rows: nat,
    x: E4,
    k: nat,
)
    requires
        k <= polys.len(),
        k <= leaf.len(),
        acc.len() == rows * width,
        forall|i: int| 0 <= i < k ==> (#[trigger] polys[i]).len() == rows * width,
        forall|i: int|
            0 <= i < k ==> lift(#[trigger] leaf[i]) == row_at(lift(polys[i]), width, rows, x),
    ensures
        row_at(rows_combined(acc, polys, powers, k), width, rows, x) == rows_combined(
            row_at(acc, width, rows, x),
            leaf,
            powers,
            k,
        ),
    decreases k,
{
    if k > 0 {
        row_at_rows_combined(acc, polys, leaf, powers, width, rows, x, (k - 1) as nat);
        rows_combined_len(acc, polys, powers, (k - 1) as nat);
        assert(polys[k - 1].len() == rows * width);
        assert(lift(leaf[k - 1]) == row_at(lift(polys[k - 1]), width, rows, x));
        row_at_vadd(
            rows_combined(acc, polys, powers, (k - 1) as nat),
            powers[k - 1],
            lift(polys[k - 1]),
            width,
            rows,
            x,
        );
    }
}

pub proof fn virtual_poly_len(stripes: Seq<Seq<Seq<int>>>, powers: Seq<Seq<E4>>, v: nat, k: nat)
    ensures
        virtual_poly(stripes, powers, v, k).len() == pow2(v),
    decreases k,
{
    if k > 0 {
        virtual_poly_len(stripes, powers, v, (k - 1) as nat);
        rows_combined_len(
            virtual_poly(stripes, powers, v, (k - 1) as nat),
            stripes[k - 1],
            powers[k - 1],
            stripes[k - 1].len(),
        );
    }
}

proof fn row_at_zeros(v: nat, fold: nat, x: E4)
    requires
        fold <= v,
    ensures
        row_at(zeros(v), pow2(fold), pow2((v - fold) as nat), x) == zero_row(fold),
{
    let w = pow2(fold);
    let rows = pow2((v - fold) as nat);
    vstd::arithmetic::power2::lemma_pow2_adds(fold, (v - fold) as nat);
    assert(pow2(v) == rows * w) by (nonlinear_arith)
        requires
            pow2(v) == w * rows,
    ;
    let z = zeros(v);
    let left = row_at(z, w, rows, x);
    assert forall|c: int| 0 <= c < w implies left[c] == zero_row(fold)[c] by {
        let f = |h: int| z[h * w + c] * e_pow(x, h as nat);
        assert forall|h: int| 0 <= h < rows implies #[trigger] f(h) == e_zero() by {
            cell_bound(h, c, rows as int, w as int);
            mul_zero(e_pow(x, h as nat));
        }
        esum_zero(rows, f);
    }
    assert(left =~= zero_row(fold));
}

proof fn stripes_open(
    roots: Seq<Seq<int>>,
    counts: Seq<nat>,
    powers: Seq<Seq<E4>>,
    trees: Seq<TreeVal>,
    fold: nat,
    v: nat,
    log_height: nat,
    stripes: Seq<Seq<Seq<int>>>,
    indices: Seq<int>,
    leaves: Seq<LeafVal>,
    q: nat,
    rows_word: Option<Seq<char>>,
    merkle_word: Seq<char>,
    k: nat,
)
    requires
        k <= roots.len(),
        trees.len() == roots.len(),
        stripes.len() == roots.len(),
        fold <= v,
        v - fold <= log_height,
        forall|i: int|
            0 <= i < roots.len() ==> {
                &&& (#[trigger] roots[i]) == merkle_root(trees[i])
                &&& counts[i] == trees[i].len()
                &&& tree_encodes(trees[i], stripes[i], fold, v, log_height)
            },
        q < indices.len(),
        0 <= indices[q as int] < pow2(log_height),
        leaves == opened_leaves(trees, indices),
        leaves_accepted(trees, pow2(log_height), indices, leaves),
    ensures
        stripes_refusal(
            roots,
            counts,
            fold,
            log_height,
            indices[q as int] as nat,
            leaves,
            (q * roots.len()) as int,
            rows_word,
            merkle_word,
            k,
        ) is None,
        stripes_combined(zero_row(fold), powers, leaves, (q * roots.len()) as int, k) == row_at(
            virtual_poly(stripes, powers, v, k),
            pow2(fold),
            pow2((v - fold) as nat),
            domain_point(log_height, indices[q as int] as nat),
        ),
    decreases k,
{
    let x = domain_point(log_height, indices[q as int] as nat);
    let w = pow2(fold);
    let rows = pow2((v - fold) as nat);
    if k == 0 {
        row_at_zeros(v, fold, x);
    } else {
        let i = k - 1;
        stripes_open(
            roots, counts, powers, trees, fold, v, log_height, stripes, indices, leaves, q,
            rows_word, merkle_word, i as nat,
        );
        let per = roots.len();
        let idx = indices[q as int];
        cell_bound(q as int, i, indices.len() as int, per as int);
        let t = q * per + i;
        assert(roots[i] == merkle_root(trees[i]));
        let tree = trees[i];
        let leaf = leaves[t];
        assert(leaf == opened_leaf(tree, idx));
        assert(widths_of(tree) =~= widths(counts[i], w)) by {
            assert forall|a: int| 0 <= a < tree.len() implies widths_of(tree)[a] == w by {
                assert(stripes[i][a].len() == pow2(v));
            }
        }
        vstd::arithmetic::power2::lemma_pow2_adds(fold, (v - fold) as nat);
        assert(pow2(v) == rows * w) by (nonlinear_arith)
            requires
                pow2(v) == w * rows,
        ;
        assert forall|a: int| 0 <= a < stripes[i].len() implies lift(#[trigger] leaf.rows[a])
            == row_at(lift(stripes[i][a]), w, rows, x) by {
            assert(stripes[i][a].len() == pow2(v));
            base_leaf(tree[a], lift(stripes[i][a]), fold, v, log_height, idx as nat);
        }
        virtual_poly_len(stripes, powers, v, i as nat);
        row_at_rows_combined(
            virtual_poly(stripes, powers, v, i as nat),
            stripes[i],
            leaf.rows,
            powers[i],
            w,
            rows,
            x,
            stripes[i].len(),
        );
        assert(leaf.rows.len() == stripes[i].len());
    }
}

/// A query into an honest codeword is accepted, and reads the row of the polynomial
/// at the query's domain point.
proof fn honest_query(
    src: SourceVal,
    trees: Seq<TreeVal>,
    f: Seq<E4>,
    fold: nat,
    v: nat,
    log_height: nat,
    stripes: Seq<Seq<Seq<int>>>,
    indices: Seq<int>,
    leaves: Seq<LeafVal>,
    q: nat,
    rows_word: Option<Seq<char>>,
    merkle_word: Seq<char>,
)
    requires
        source_encodes(src, trees, f, fold, v, log_height, stripes),
        f.len() == pow2(v),
        fold <= v,
        v - fold <= log_height,
        q < indices.len(),
        0 <= indices[q as int] < pow2(log_height),
        leaves == opened_leaves(trees, indices),
        leaves_accepted(trees, pow2(log_height), indices, leaves),
    ensures
        query_refusal(
            src,
            fold,
            log_height,
            indices[q as int] as nat,
            leaves,
            q,
            rows_word,
            merkle_word,
        ) is None,
        query_row(src, fold, leaves, q) == row_at(
            f,
            pow2(fold),
            pow2((v - fold) as nat),
            domain_point(log_height, indices[q as int] as nat),
        ),
{
    match src {
        SourceVal::Single(root, base) => {
            let idx = indices[q as int];
            cell_bound(q as int, 0, indices.len() as int, 1);
            assert(leaves.len() == indices.len());
            assert(q as int % 1 == 0 && q as int / 1 == q as int);
            let leaf = leaves[q as int];
            assert(leaf == opened_leaf(trees[0], idx));
            let tree = trees[0];
            if base {
                base_leaf(tree[0], f, fold, v, log_height, idx as nat);
                assert(widths_of(tree) =~= widths(1, pow2(fold)));
            } else {
                ext_leaf(f, fold, v, log_height, idx as nat);
                assert(widths_of(tree) =~= widths(1, pow2(fold) * 4));
            }
        },
        SourceVal::Stripes(roots, counts, powers) => {
            stripes_open(
                roots, counts, powers, trees, fold, v, log_height, stripes, indices, leaves, q,
                rows_word, merkle_word, roots.len(),
            );
        },
    }
}

/// The row of a query, folded at the round's challenges, is the monomial evaluation
/// of the folded polynomial at the query's point.
proof fn honest_stir(
    src: SourceVal,
    trees: Seq<TreeVal>,
    f: Seq<E4>,
    fold: nat,
    v: nat,
    log_height: nat,
    stripes: Seq<Seq<Seq<int>>>,
    indices: Seq<int>,
    leaves: Seq<LeafVal>,
    q: nat,
    own: Seq<E4>,
)
    requires
        source_encodes(src, trees, f, fold, v, log_height, stripes),
        f.len() == pow2(v),
        fold <= v,
        v - fold <= log_height,
        q < indices.len(),
        0 <= indices[q as int] < pow2(log_height),
        leaves == opened_leaves(trees, indices),
        leaves_accepted(trees, pow2(log_height), indices, leaves),
        own.len() == fold,
    ensures
        mle_eval(query_row(src, fold, leaves, q), own) == mono_value(
            fold_all(f, own),
            pow_point(domain_point(log_height, indices[q as int] as nat), (v - fold) as nat),
        ),
        fold_all(f, own).len() == pow2((v - fold) as nat),
{
    let x = domain_point(log_height, indices[q as int] as nat);
    honest_query(
        src, trees, f, fold, v, log_height, stripes, indices, leaves, q, None, Seq::empty(),
    );
    pow_canon(crate::dft::domain_generator(log_height), indices[q as int] as nat);
    folded_row_is_univariate(f, fold, v, x, own);
    mono_value_is_univariate(fold_all(f, own), x, (v - fold) as nat);
}

/// Indices drawn with a given number of bits are below that power of two.
proof fn drawn_indices_bound(s: Sponge, bits: nat, n: nat, i: int)
    requires
        0 <= i < n,
    ensures
        0 <= s.drawn_indices(bits, n)[i] < pow2(bits),
{
    reveal(Sponge::drawn_bits);
    lemma_pow2_pos(bits);
}

/// Whether a verifier works on the proof, the schedule and the start of a prover.
pub open spec fn same_instance(inst: Instance, pr: Prover) -> bool {
    &&& inst.n == pr.n
    &&& inst.rounds == pr.rounds
    &&& inst.start_rate == pr.start_rate
    &&& inst.final_queries == pr.final_queries
    &&& inst.final_pow_bits == pr.final_pow_bits
    &&& inst.start == pr.start
    &&& inst.m() > 1 ==> inst.final_root == inst.proof_val.roots[inst.m() - 2]
}

/// Whether verifier and prover agree after `r` whole rounds, with nothing refused and
/// the prover's folder sound.
pub open spec fn in_step(
    inst: Instance,
    pr: Prover,
    st0: VState,
    ps0: PState,
    data: Seq<RoundData>,
    r: int,
) -> bool {
    let st = inst.run(st0, r);
    let ps = pr.run(ps0, data, r);
    &&& inst.run_refusal(st0, r) is None
    &&& st.sponge == ps.sponge
    &&& st.claim == ps.folder.claim
    &&& st.challenges == ps.challenges
    &&& sound_folder(ps.folder, st.terms, inst.n, ps.challenges, pr.left(r))
}

/// The schedule folds no more variables than there are.
pub open spec fn schedule_ok(pr: Prover) -> bool {
    &&& pr.m() > 0
    &&& folded_vars(pr.rounds, pr.m() as int) <= pr.n
}

proof fn left_step(pr: Prover, r: int)
    requires
        schedule_ok(pr),
        0 <= r < pr.m(),
    ensures
        pr.left(r) == pr.left(r + 1) + pr.fold(r),
        pr.left(r) <= pr.n,
        folded_vars(pr.rounds, r + 1) <= pr.n,
{
    folded_vars_monotone(pr.rounds, r + 1, pr.m() as int);
}

/// The folds of an honest round are accepted and keep verifier and prover in step.
proof fn folds_in_step(
    inst: Instance,
    pr: Prover,
    st: VState,
    ps: PState,
    data: Seq<RoundData>,
    r: int,
)
    requires
        same_instance(inst, pr),
        schedule_ok(pr),
        0 <= r < pr.m(),
        data == pr.all_data(inst.proof_val),
        inst.proof_val.pows.len() == folded_vars(pr.rounds, pr.m() as int) + pr.m() - 1,
        st.sponge == ps.sponge,
        st.claim == ps.folder.claim,
        st.challenges == ps.challenges,
        sound_folder(ps.folder, st.terms, inst.n, ps.challenges, pr.left(r)),
        pr.honest_folds(ps, data[r], r),
    ensures
        inst.folds_refusal(st, r) is None,
        ({
            let st1 = inst.after_folds(st, r);
            let ps1 = pr.folded(ps, data[r], r);
            let own = pr.own_challenges(ps1, r);
            &&& st1.sponge == ps1.sponge
            &&& st1.claim == ps1.folder.claim
            &&& st1.challenges == ps1.challenges
            &&& st1.terms == st.terms
            &&& sound_folder(ps1.folder, st1.terms, inst.n, ps1.challenges, pr.left(r + 1))
            &&& own.len() == pr.fold(r)
            &&& own == inst.own_challenges(st1, r)
            &&& ps1.folder.f == fold_all(ps.folder.f, own)
        }),
{
    left_step(pr, r);
    let d = data[r];
    let start = pr.fold_start(ps);
    let bits = pr.rounds[r].pow_bits@;
    let from = Replay { sponge: st.sponge, claim: st.claim, challenges: st.challenges };
    replay_of_honest_folds(
        start,
        st.terms,
        inst.n,
        pr.left(r),
        d.msgs,
        bits,
        d.pows,
        pr.fold(r),
        r,
        inst.words.degree,
    );
    let base = (folded_vars(pr.rounds, r) + r) as int;
    let tail = inst.pows_from(r);
    folded_vars_monotone(pr.rounds, r + 1, pr.m() as int);
    assert forall|i: int| 0 <= i < pr.fold(r) implies #[trigger] d.pows[i] == tail[i] by {}
    assert(inst.msgs(r) == d.msgs);
    replay_ext(from, d.msgs, bits, d.pows, tail, pr.fold(r), r, inst.words.degree);
    crate::whir::sumcheck::fold_run_challenges(start, bits, d.pows, pr.fold(r));
    let ps1 = pr.folded(ps, d, r);
    assert(pr.own_challenges(ps1, r) =~= ps1.challenges.skip(ps.challenges.len() as int));
}

/// The queries of an honest round are accepted and keep verifier and prover in step.
proof fn queries_in_step(
    inst: Instance,
    pr: Prover,
    st: VState,
    ps: PState,
    prev: Seq<E4>,
    data: Seq<RoundData>,
    stripes: Seq<Seq<Seq<int>>>,
    r: int,
)
    requires
        same_instance(inst, pr),
        schedule_ok(pr),
        0 <= r < pr.m() - 1,
        data == pr.all_data(inst.proof_val),
        inst.proof_val.pows.len() == folded_vars(pr.rounds, pr.m() as int) + pr.m() - 1,
        st.sponge == ps.sponge,
        st.claim == ps.folder.claim,
        st.challenges == ps.challenges,
        sound_folder(ps.folder, st.terms, inst.n, ps.challenges, pr.left(r + 1)),
        prev.len() == pow2(pr.left(r)),
        pr.own_challenges(ps, r).len() == pr.fold(r),
        ps.folder.f == fold_all(prev, pr.own_challenges(ps, r)),
        pr.honest_queries(prev, ps, data[r], r),
        source_encodes(
            pr.source(data, r),
            pr.open_trees(prev, r),
            prev,
            pr.fold(r),
            pr.left(r),
            pr.codeword_log(r),
            stripes,
        ),
    ensures
        inst.opening_refusal(st, r) is None,
        ({
            let st1 = inst.after_queries(st, r);
            let ps1 = pr.queried(data, ps, data[r], r);
            &&& st1.sponge == ps1.sponge
            &&& st1.claim == ps1.folder.claim
            &&& st1.challenges == ps1.challenges
            &&& sound_folder(ps1.folder, st1.terms, inst.n, ps1.challenges, pr.left(r + 1))
        }),
{
    reveal(sound_folder);
    left_step(pr, r);
    let d = data[r];
    let f = ps.folder.f;
    let cur = pr.left(r + 1);
    let log = pr.codeword_log(r);
    let own = pr.own_challenges(ps, r);
    let src = pr.source(data, r);
    let trees = pr.open_trees(prev, r);
    let indices = pr.indices(ps.sponge, d, r);
    let nq = pr.rounds[r].num_queries as nat;
    folded_vars_monotone(pr.rounds, r + 1, pr.m() as int);
    assert(inst.query_pow(r) == d.query_pow);
    assert(inst.source(r) == src) by {
        if r > 0 {
            assert(data[r - 1].root == inst.proof_val.roots[r - 1]);
        }
    }
    assert(inst.ood_points(st, r) == pr.ood_points(ps.sponge, d, r));
    assert(inst.indices(st, r) == indices);
    assert(trees.len() == src.leaves_per_query());
    // Every query is accepted, and gives a monomial evaluation of the folded polynomial.
    let points = pr.stir_points(ps, d, r);
    let values = pr.stir_values(data, ps, d, r);
    assert forall|q: int| 0 <= q < nq implies #[trigger] values[q] == dot(
        mono_tables(points)[q],
        f,
    ) by {
        drawn_indices_bound(pr.index_sponge(ps.sponge, d, r), log, nq, q);
        honest_stir(
            src, trees, prev, pr.fold(r), pr.left(r), log, stripes, indices, d.leaves, q as nat,
            own,
        );
    }
    queries_accepted(inst, pr, st, ps, prev, data, stripes, r, nq);
    // Batching keeps the claim, and appends the constraints to the weight.
    let batch = pr.batch_sponge(ps, d, r).drawn_ext();
    let a = d.answers.len();
    let c1 = batch_coeffs(batch, batch, a);
    let c2 = batch_coeffs(e_pow(batch, a + 1), batch, nq);
    let ood = pr.ood_points(ps.sponge, d, r);
    let t1 = eq_tables(ood);
    let t2 = mono_tables(points);
    assert forall|i: int| 0 <= i < a implies (#[trigger] t1[i]).len() == pow2(cur) by {
        assert(ood[i].len() == cur);
    }
    assert forall|i: int| 0 <= i < a implies #[trigger] d.answers[i] == dot(t1[i], f) by {
        assert(ood[i].len() == cur);
        mle_eval_is_weighted_sum(f, ood[i]);
    }
    assert forall|i: int| 0 <= i < nq implies (#[trigger] t2[i]).len() == pow2(cur) by {
        pow_point_len(domain_point(log, indices[i] as nat), cur);
    }
    let w0 = ps.folder.w;
    let w1 = absorbed(w0, t1, c1, a as int);
    let w2 = absorbed(w1, t2, c2, nq as int);
    absorbed_len(w0, t1, c1, a as int);
    absorbed_len(w1, t2, c2, nq as int);
    absorbed_canon(w0, t1, c1, a as int);
    absorbed_canon(w1, t2, c2, nq as int);
    batching_keeps_claim(w0, f, t1, d.answers, c1, a as int);
    batching_keeps_claim(w1, f, t2, values, c2, nq as int);
    assert(all_canon(c1)) by {
        assert forall|i: int| 0 <= i < c1.len() implies (#[trigger] c1[i]).canon() by {
            mul_canon(batch, e_pow(batch, i as nat));
        }
    }
    assert(all_canon(c2)) by {
        assert forall|i: int| 0 <= i < c2.len() implies (#[trigger] c2[i]).canon() by {
            mul_canon(e_pow(batch, a + 1), e_pow(batch, i as nat));
        }
    }
    let mid = st.terms + terms_of(false, ood, c1, cur);
    let end = mid + terms_of(true, points, c2, cur);
    weight_of_append(st.terms, false, ood, c1, inst.n, ps.challenges, cur, a as int);
    weight_of_append(mid, true, points, c2, inst.n, ps.challenges, cur, nq as int);
    assert(mid.len() == st.terms.len() + a);
    assert(end.len() == mid.len() + nq);
    assert forall|i: int| 0 <= i < end.len() implies term_fits(#[trigger] end[i], inst.n, cur) by {
        if i < st.terms.len() {
            assert(end[i] == st.terms[i]);
        } else if i < mid.len() {
            assert(end[i] == terms_of(false, ood, c1, cur)[i - st.terms.len()]);
            assert(ood[i - st.terms.len()].len() == cur);
        } else {
            assert(end[i] == terms_of(true, points, c2, cur)[i - mid.len()]);
            pow_point_len(domain_point(log, indices[i - mid.len()] as nat), cur);
        }
    }
    let st1 = inst.after_queries(st, r);
    assert(inst.stir_points(st, r) =~= points);
    assert(inst.stir_values(st, r) =~= values);
    assert(st1.terms == end);
}

proof fn queries_accepted(
    inst: Instance,
    pr: Prover,
    st: VState,
    ps: PState,
    prev: Seq<E4>,
    data: Seq<RoundData>,
    stripes: Seq<Seq<Seq<int>>>,
    r: int,
    k: nat,
)
    requires
        same_instance(inst, pr),
        schedule_ok(pr),
        0 <= r < pr.m() - 1,
        k <= pr.rounds[r].num_queries,
        inst.source(r) == pr.source(data, r),
        inst.indices(st, r) == pr.indices(ps.sponge, data[r], r),
        inst.proof_val.openings[r] == data[r].leaves,
        prev.len() == pow2(pr.left(r)),
        pr.honest_queries(prev, ps, data[r], r),
        source_encodes(
            pr.source(data, r),
            pr.open_trees(prev, r),
            prev,
            pr.fold(r),
            pr.left(r),
            pr.codeword_log(r),
            stripes,
        ),
    ensures
        inst.queries_refusal(st, r, k) is None,
    decreases k,
{
    if k > 0 {
        queries_accepted(inst, pr, st, ps, prev, data, stripes, r, (k - 1) as nat);
        left_step(pr, r);
        let d = data[r];
        let nq = pr.rounds[r].num_queries as nat;
        drawn_indices_bound(
            pr.index_sponge(ps.sponge, d, r),
            pr.codeword_log(r),
            nq,
            k - 1,
        );
        honest_query(
            pr.source(data, r),
            pr.open_trees(prev, r),
            prev,
            pr.fold(r),
            pr.left(r),
            pr.codeword_log(r),
            stripes,
            pr.indices(ps.sponge, d, r),
            d.leaves,
            (k - 1) as nat,
            inst.words.rows,
            "merkle"@,
        );
    }
}

/// Verifier and prover stay in step through every honest round.
proof fn rounds_in_step(
    inst: Instance,
    pr: Prover,
    st0: VState,
    ps0: PState,
    data: Seq<RoundData>,
    stripes: Seq<Seq<Seq<int>>>,
    r: int,
)
    requires
        same_instance(inst, pr),
        schedule_ok(pr),
        0 <= r < pr.m(),
        data == pr.all_data(inst.proof_val),
        inst.proof_val.pows.len() == folded_vars(pr.rounds, pr.m() as int) + pr.m() - 1,
        in_step(inst, pr, st0, ps0, data, 0),
        source_encodes(
            pr.start,
            pr.trees,
            ps0.folder.f,
            pr.fold(0),
            pr.n,
            pr.codeword_log(0),
            stripes,
        ),
        pr.honest_rounds(ps0, data, r),
    ensures
        in_step(inst, pr, st0, ps0, data, r),
        source_encodes(
            pr.source(data, r),
            pr.open_trees(pr.run(ps0, data, r).folder.f, r),
            pr.run(ps0, data, r).folder.f,
            pr.fold(r),
            pr.left(r),
            pr.codeword_log(r),
            stripes,
        ),
    decreases r,
{
    if r == 0 {
        assert(pr.left(0) == pr.n);
    } else {
        let j = r - 1;
        assert forall|i: int| 0 <= i < j implies #[trigger] pr.honest_round(ps0, data, i) by {}
        rounds_in_step(inst, pr, st0, ps0, data, stripes, j);
        assert(pr.honest_round(ps0, data, j));
        let st = inst.run(st0, j);
        let ps = pr.run(ps0, data, j);
        folds_in_step(inst, pr, st, ps, data, j);
        reveal(sound_folder);
        let st1 = inst.after_folds(st, j);
        let ps1 = pr.folded(ps, data[j], j);
        queries_in_step(inst, pr, st1, ps1, ps.folder.f, data, stripes, j);
        assert(inst.run(st0, r) == inst.after_queries(st1, j));
        assert(pr.run(ps0, data, r) == pr.queried(data, ps1, data[j], j));
        let f = pr.run(ps0, data, r).folder.f;
        assert(f == ps1.folder.f);
        let trees = pr.open_trees(f, r);
        assert(trees[0][0] == ext_matrix(f, pr.fold(r), pr.codeword_log(r)));
    }
}

proof fn final_queries_accepted(
    inst: Instance,
    pr: Prover,
    end: VState,
    pend: PState,
    prev: Seq<E4>,
    data: Seq<RoundData>,
    stripes: Seq<Seq<Seq<int>>>,
    k: nat,
)
    requires
        same_instance(inst, pr),
        schedule_ok(pr),
        k <= pr.final_queries,
        end.sponge == pend.sponge,
        inst.own_challenges(end, pr.m() - 1) == pr.own_challenges(pend, pr.m() - 1),
        pr.own_challenges(pend, pr.m() - 1).len() == pr.fold(pr.m() - 1),
        inst.final_source() == pr.source(data, pr.m() - 1),
        prev.len() == pow2(pr.left(pr.m() - 1)),
        inst.proof_val.final_poly == fold_all(prev, pr.own_challenges(pend, pr.m() - 1)),
        pr.honest_end(prev, pend, inst.proof_val.final_pow, inst.proof_val.openings.last()),
        source_encodes(
            pr.source(data, pr.m() - 1),
            pr.open_trees(prev, pr.m() - 1),
            prev,
            pr.fold(pr.m() - 1),
            pr.left(pr.m() - 1),
            pr.codeword_log(pr.m() - 1),
            stripes,
        ),
    ensures
        inst.final_queries_refusal(end, k) is None,
    decreases k,
{
    if k > 0 {
        let r = pr.m() - 1;
        final_queries_accepted(inst, pr, end, pend, prev, data, stripes, (k - 1) as nat);
        left_step(pr, r);
        let pow = inst.proof_val.final_pow;
        let log = pr.codeword_log(r);
        let indices = pr.final_indices(pend, pow);
        let leaves = inst.proof_val.openings.last();
        let src = pr.source(data, r);
        let trees = pr.open_trees(prev, r);
        drawn_indices_bound(
            pend.sponge.after_pow(pr.final_pow_bits, pow),
            log,
            pr.final_queries,
            k - 1,
        );
        assert(inst.final_indices(end) == indices);
        honest_query(
            src, trees, prev, pr.fold(r), pr.left(r), log, stripes, indices, leaves,
            (k - 1) as nat, None, "final merkle"@,
        );
        honest_stir(
            src, trees, prev, pr.fold(r), pr.left(r), log, stripes, indices, leaves,
            (k - 1) as nat, pr.own_challenges(pend, r),
        );
        assert(inst.last() == pr.left(r + 1));
    }
}

/// An honest proof is accepted: where prover and verifier start from one transcript,
/// the prover's claim is the inner product of weight and polynomial, the weight is that
/// of the verifier's starting constraints, and the starting codeword encodes the
/// polynomial, the verifier refuses nothing.
pub proof fn honest_proof_is_accepted(
    inst: Instance,
    pr: Prover,
    st0: VState,
    ps0: PState,
    stripes: Seq<Seq<Seq<int>>>,
)
    requires
        same_instance(inst, pr),
        schedule_ok(pr),
        pr.honest(ps0, inst.proof_val),
        st0.sponge == ps0.sponge,
        st0.claim == ps0.folder.claim,
        st0.challenges == ps0.challenges,
        sound_folder(ps0.folder, st0.terms, inst.n, ps0.challenges, pr.n),
        source_encodes(
            pr.start,
            pr.trees,
            ps0.folder.f,
            pr.fold(0),
            pr.n,
            pr.codeword_log(0),
            stripes,
        ),
    ensures
        inst.refusal(st0) is None,
        inst.proof_val.final_poly.len() == pow2(inst.last()),
{
    let p = inst.proof_val;
    let data = pr.all_data(p);
    let r = pr.m() - 1;
    assert(pr.left(0) == pr.n);
    rounds_in_step(inst, pr, st0, ps0, data, stripes, r);
    let st = inst.run(st0, r);
    let ps = pr.run(ps0, data, r);
    folds_in_step(inst, pr, st, ps, data, r);
    reveal(sound_folder);
    let end = inst.after_folds(st, r);
    let pend = pr.folded(ps, data[r], r);
    left_step(pr, r);
    assert(inst.last() == pr.left(r + 1));
    let src = pr.source(data, r);
    assert(inst.final_source() == src) by {
        if r > 0 {
            assert(data[r - 1].root == p.roots[r - 1]);
        }
    }
    let trees = pr.open_trees(ps.folder.f, r);
    assert(trees.len() == src.leaves_per_query());
    final_queries_accepted(
        inst, pr, end, pend, ps.folder.f, data, stripes, pr.final_queries,
    );
    dot_weight_is_terminal_sum(
        end.terms,
        inst.n,
        inst.last(),
        end.challenges,
        p.final_poly,
        end.terms.len(),
    );
}

} // verus!
