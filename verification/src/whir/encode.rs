//! Interleaved Reed-Solomon codewords.
//!
//! A polynomial is read as a matrix of `2^ff` columns, row-major, so that the low
//! `ff` variables pick the column. Zero rows are appended up to the rate, and every
//! column is transformed. Row `j` of the codeword then holds, for each assignment
//! `c` of the low variables, the sum over `h` of `f[h * 2^ff + c] * x_j^h`.
use vstd::prelude::*;
use vstd::arithmetic::power2::{lemma2_to64, lemma_pow2_adds, lemma_pow2_pos, lemma_pow2_unfold,
    pow2};
use vstd::arithmetic::div_mod::{lemma_div_multiples_vanish, lemma_fundamental_div_mod,
    lemma_fundamental_div_mod_converse};
use crate::arith::{pow2_above, pow2_le, pow2_usize};
use crate::dft::{column, dft_base, dft_ext, domain_point, is_dft};
use crate::ext::{add_zero, e_pow, e_zero, embed, evals, fvals, lift, mul_comm, mul_zero, Ext, E4};
use crate::felt::Felt;
use crate::merkle::{matrix_row, matrix_val, Matrix};
use crate::mle::{esum, esum_canon, esum_ext, esum_split, esum_zero, fold, fold_all, mle_eval,
    univariate};
use crate::ring::{lerp, lerp_scale};
use crate::whir::replay::leaf_elements;

verus! {

/// The transform of every column of a matrix of `width` columns.
pub open spec fn dft_of(coeffs: Seq<E4>, width: nat, log_height: nat) -> Seq<E4> {
    Seq::new(
        coeffs.len(),
        |t: int|
            univariate(
                column(coeffs, width, t % width as int),
                domain_point(log_height, (t / width as int) as nat),
            ),
    )
}

/// A sequence followed by zeros, up to length `len`.
pub open spec fn padded(f: Seq<E4>, len: nat) -> Seq<E4> {
    Seq::new(
        len,
        |i: int|
            if i < f.len() {
                f[i]
            } else {
                e_zero()
            },
    )
}

/// The interleaved codeword of `f` with `2^ff` columns and `2^log_height` rows.
pub open spec fn codeword(f: Seq<E4>, ff: nat, log_height: nat) -> Seq<E4> {
    dft_of(padded(f, pow2(log_height) * pow2(ff)), pow2(ff), log_height)
}

/// The row at `x` of the codeword of `f`: for each column, the sum over the rows `h`
/// of the entry times `x^h`.
pub open spec fn row_at(f: Seq<E4>, width: nat, rows: nat, x: E4) -> Seq<E4> {
    Seq::new(width, |c: int| esum(rows, |h: int| f[h * width + c] * e_pow(x, h as nat)))
}

/// The constant coefficients of a sequence.
pub open spec fn constants(s: Seq<E4>) -> Seq<int> {
    Seq::new(s.len(), |i: int| s[i].c0)
}

/// The four coefficients of every element, in order.
pub open spec fn flattened(s: Seq<E4>) -> Seq<int> {
    Seq::new(
        4 * s.len(),
        |i: int|
            if i % 4 == 0 {
                s[i / 4].c0
            } else if i % 4 == 1 {
                s[i / 4].c1
            } else if i % 4 == 2 {
                s[i / 4].c2
            } else {
                s[i / 4].c3
            },
    )
}

/// The matrix committed for base-field values.
pub open spec fn base_matrix(f: Seq<int>, ff: nat, log_height: nat) -> (Seq<int>, nat) {
    (constants(codeword(lift(f), ff, log_height)), pow2(ff))
}

/// The matrix committed for extension values.
pub open spec fn ext_matrix(f: Seq<E4>, ff: nat, log_height: nat) -> (Seq<int>, nat) {
    (flattened(codeword(f, ff, log_height)), 4 * pow2(ff))
}

proof fn lemma_dft_unique(coeffs: Seq<E4>, width: nat, log_height: nat, out: Seq<E4>)
    requires
        width > 0,
        coeffs.len() == pow2(log_height) * width,
        is_dft(coeffs, width, log_height, out),
    ensures
        out == dft_of(coeffs, width, log_height),
{
    let d = dft_of(coeffs, width, log_height);
    assert forall|t: int| 0 <= t < out.len() implies out[t] == d[t] by {
        let j = t / width as int;
        let c = t % width as int;
        lemma_fundamental_div_mod(t, width as int);
        assert(t == j * width + c) by (nonlinear_arith)
            requires
                t == width * j + c,
        ;
        assert(0 <= c < width);
        assert(j < pow2(log_height)) by (nonlinear_arith)
            requires
                t == width * j + c,
                0 <= c,
                t < pow2(log_height) * width,
                width > 0,
        ;
        assert(0 <= j) by (nonlinear_arith)
            requires
                t == width * j + c,
                c < width,
                t >= 0,
                width > 0,
        ;
        assert(out[j * width + c] == univariate(
            column(coeffs, width, c),
            domain_point(log_height, j as nat),
        ));
    }
    assert(out =~= d);
}

/// A length split into whole rows and a column lies below the whole.
pub proof fn cell_bound(j: int, c: int, rows: int, width: int)
    requires
        0 <= j < rows,
        0 <= c < width,
    ensures
        0 <= j * width + c < rows * width,
        (j * width + c) / width == j,
        (j * width + c) % width == c,
{
    assert(0 <= j * width) by (nonlinear_arith)
        requires
            0 <= j,
            0 < width,
    ;
    assert(j * width + width <= rows * width) by (nonlinear_arith)
        requires
            j + 1 <= rows,
            0 < width,
    ;
    lemma_fundamental_div_mod_converse(j * width + c, width, j, c);
}

/// Row `j` of a codeword is the row at domain point `j` of the polynomial.
pub proof fn codeword_row(f: Seq<E4>, ff: nat, v: nat, log_height: nat, j: nat)
    requires
        f.len() == pow2(v),
        ff <= v,
        v - ff <= log_height,
        j < pow2(log_height),
    ensures
        codeword(f, ff, log_height).subrange((j * pow2(ff)) as int, ((j + 1) * pow2(ff)) as int) == row_at(
            f,
            pow2(ff),
            pow2((v - ff) as nat),
            domain_point(log_height, j),
        ),
{
    let w = pow2(ff);
    let rows = pow2((v - ff) as nat);
    let x = domain_point(log_height, j);
    lemma_pow2_pos(ff);
    lemma_pow2_adds(ff, (v - ff) as nat);
    assert(f.len() == rows * w) by (nonlinear_arith)
        requires
            f.len() == w * rows,
    ;
    pow2_le((v - ff) as nat, log_height);
    let big = pow2(log_height);
    let p = padded(f, big * w);
    let cw = codeword(f, ff, log_height);
    assert((j + 1) * w == j * w + w) by (nonlinear_arith);
    assert(j * w + w <= big * w) by (nonlinear_arith)
        requires
            j + 1 <= big,
    ;
    assert(0 <= j * w) by (nonlinear_arith);
    let left = cw.subrange((j * w) as int, ((j + 1) * w) as int);
    let right = row_at(f, w, rows, x);
    assert forall|c: int| 0 <= c < w implies left[c] == right[c] by {
        cell_bound(j as int, c, big as int, w as int);
        let col = column(p, w, c);
        assert(p.len() == big * w);
        vstd::arithmetic::div_mod::lemma_div_multiples_vanish(big as int, w as int);
        assert(big * w == w * big) by (nonlinear_arith);
        assert(col.len() == big);
        let g = |h: int| col[h] * e_pow(x, h as nat);
        let small = |h: int| f[h * w + c] * e_pow(x, h as nat);
        let extra = (big - rows) as nat;
        esum_split(rows, extra, g);
        assert forall|h: int| 0 <= h < rows implies #[trigger] g(h) == small(h) by {
            cell_bound(h, c, rows as int, w as int);
            cell_bound(h, c, big as int, w as int);
        }
        esum_ext(rows, g, small);
        let tail = |i: int| g(rows + i);
        assert forall|i: int| 0 <= i < extra implies #[trigger] tail(i) == e_zero() by {
            let h = rows + i;
            cell_bound(h, c, big as int, w as int);
            assert(h * w >= rows * w) by (nonlinear_arith)
                requires
                    h >= rows,
            ;
            assert(p[h * w + c] == e_zero());
            mul_zero(e_pow(x, h as nat));
        }
        esum_zero(extra, tail);
        esum_canon(rows, g);
        add_zero(esum(rows, g));
        assert(left[c] == cw[j * w + c]);
    }
    assert(left =~= right);
}

/// Folding a row of the codeword at a challenge is the row of the folded polynomial.
proof fn lemma_fold_row(f: Seq<E4>, half: nat, rows: nat, x: E4, r: E4)
    requires
        half > 0,
        f.len() == rows * (2 * half),
    ensures
        fold(row_at(f, 2 * half, rows, x), r) == row_at(fold(f, r), half, rows, x),
{
    let w = 2 * half;
    let left = fold(row_at(f, w, rows, x), r);
    let g = fold(f, r);
    let right = row_at(g, half, rows, x);
    assert forall|c: int| 0 <= c < half implies left[c] == right[c] by {
        let lo = |h: int| f[h * w + 2 * c] * e_pow(x, h as nat);
        let hi = |h: int| f[h * w + 2 * c + 1] * e_pow(x, h as nat);
        let hi2 = |h: int| f[h * w + (2 * c + 1)] * e_pow(x, h as nat);
        let both = |h: int| g[h * half + c] * e_pow(x, h as nat);
        assert forall|h: int| 0 <= h < rows implies #[trigger] hi(h) == hi2(h) by {}
        esum_ext(rows, hi, hi2);
        lemma_lerp_sum(rows, lo, hi, r);
        let mixed = |h: int| lerp(lo(h), hi(h), r);
        assert forall|h: int| 0 <= h < rows implies #[trigger] mixed(h) == both(h) by {
            let p = e_pow(x, h as nat);
            assert(2 * (h * half + c) == h * w + 2 * c) by (nonlinear_arith)
                requires
                    w == 2 * half,
            ;
            assert(0 <= h * half) by (nonlinear_arith)
                requires
                    h >= 0,
                    half > 0,
            ;
            assert(h * half + half <= rows * half) by (nonlinear_arith)
                requires
                    h + 1 <= rows,
                    half > 0,
            ;
            assert(rows * (2 * half) == 2 * (rows * half)) by (nonlinear_arith);
            let (a, b) = (f[h * w + 2 * c], f[h * w + 2 * c + 1]);
            mul_comm(a, p);
            mul_comm(b, p);
            lerp_scale(p, a, b, r);
            mul_comm(p, lerp(a, b, r));
            assert(g[h * half + c] == lerp(a, b, r));
        }
        esum_ext(rows, mixed, both);
    }
    assert(left =~= right);
}

proof fn lemma_lerp_sum(n: nat, lo: spec_fn(int) -> E4, hi: spec_fn(int) -> E4, r: E4)
    ensures
        lerp(esum(n, lo), esum(n, hi), r) == esum(n, |h: int| lerp(lo(h), hi(h), r)),
    decreases n,
{
    if n == 0 {
        crate::ring::lerp_const(e_zero(), r);
    } else {
        let k = (n - 1) as nat;
        lemma_lerp_sum(k, lo, hi, r);
        crate::ring::lerp_add(esum(k, lo), esum(k, hi), lo(n - 1), hi(n - 1), r);
    }
}

/// Folding a whole row of a codeword at the challenges of its variables is the
/// univariate value, at the row's domain point, of the folded polynomial.
pub proof fn folded_row_is_univariate(f: Seq<E4>, ff: nat, v: nat, x: E4, rs: Seq<E4>)
    requires
        f.len() == pow2(v),
        ff <= v,
        rs.len() == ff,
        x.canon(),
    ensures
        mle_eval(row_at(f, pow2(ff), pow2((v - ff) as nat), x), rs) == univariate(
            fold_all(f, rs),
            x,
        ),
        fold_all(f, rs).len() == pow2((v - ff) as nat),
    decreases ff,
{
    let rows = pow2((v - ff) as nat);
    lemma2_to64();
    if ff == 0 {
        let row = row_at(f, 1, rows, x);
        let a = |h: int| f[h * 1 + 0] * e_pow(x, h as nat);
        let b = |h: int| f[h] * e_pow(x, h as nat);
        esum_ext(rows, a, b);
        assert(row[0] == esum(rows, |h: int| f[h * 1 + 0] * e_pow(x, h as nat)));
    } else {
        lemma_pow2_unfold(ff);
        lemma_pow2_unfold(v);
        let half = pow2((ff - 1) as nat);
        lemma_pow2_pos((ff - 1) as nat);
        lemma_pow2_adds(ff, (v - ff) as nat);
        assert(f.len() == rows * (2 * half)) by (nonlinear_arith)
            requires
                f.len() == (2 * half) * rows,
        ;
        lemma_fold_row(f, half, rows, x, rs[0]);
        folded_row_is_univariate(
            fold(f, rs[0]),
            (ff - 1) as nat,
            (v - 1) as nat,
            x,
            rs.skip(1),
        );
        assert((v - 1 - (ff - 1)) as nat == (v - ff) as nat);
    }
}

/// A row of a base-field codeword, read as extension elements.
pub proof fn base_leaf(m: (Seq<int>, nat), f: Seq<E4>, ff: nat, v: nat, log_height: nat, j: nat)
    requires
        f.len() == pow2(v),
        ff <= v,
        v - ff <= log_height,
        j < pow2(log_height),
        lift(m.0) == codeword(f, ff, log_height),
        m.1 == pow2(ff),
    ensures
        leaf_elements(matrix_row(m, j as int), true) == row_at(
            f,
            pow2(ff),
            pow2((v - ff) as nat),
            domain_point(log_height, j),
        ),
        matrix_row(m, j as int).len() == pow2(ff),
{
    codeword_row(f, ff, v, log_height, j);
    let w = pow2(ff);
    lemma_pow2_pos(ff);
    let cw = codeword(f, ff, log_height);
    assert(m.0.len() == lift(m.0).len());
    assert((j + 1) * w == j * w + w) by (nonlinear_arith);
    assert(j * w + w <= pow2(log_height) * w) by (nonlinear_arith)
        requires
            j + 1 <= pow2(log_height),
    ;
    assert(0 <= j * w) by (nonlinear_arith);
    let row = matrix_row(m, j as int);
    let sub = cw.subrange((j * w) as int, ((j + 1) * w) as int);
    assert forall|c: int| 0 <= c < w implies lift(row)[c] == sub[c] by {
        assert(lift(m.0)[j * w + c] == embed(m.0[j * w + c]));
    }
    assert(lift(row) =~= sub);
}

/// A row of an extension codeword, read as extension elements.
pub proof fn ext_leaf(f: Seq<E4>, ff: nat, v: nat, log_height: nat, j: nat)
    requires
        f.len() == pow2(v),
        ff <= v,
        v - ff <= log_height,
        j < pow2(log_height),
    ensures
        leaf_elements(matrix_row(ext_matrix(f, ff, log_height), j as int), false) == row_at(
            f,
            pow2(ff),
            pow2((v - ff) as nat),
            domain_point(log_height, j),
        ),
        matrix_row(ext_matrix(f, ff, log_height), j as int).len() == 4 * pow2(ff),
{
    codeword_row(f, ff, v, log_height, j);
    let w = pow2(ff);
    lemma_pow2_pos(ff);
    let cw = codeword(f, ff, log_height);
    let m = ext_matrix(f, ff, log_height);
    assert(cw.len() == pow2(log_height) * w);
    assert((j + 1) * w == j * w + w) by (nonlinear_arith);
    assert(j * w + w <= pow2(log_height) * w) by (nonlinear_arith)
        requires
            j + 1 <= pow2(log_height),
    ;
    assert(0 <= j * w) by (nonlinear_arith);
    assert(j * (4 * w) == 4 * (j * w)) by (nonlinear_arith);
    assert((j + 1) * (4 * w) == 4 * (j * w) + 4 * w) by (nonlinear_arith);
    let row = matrix_row(m, j as int);
    let sub = cw.subrange((j * w) as int, ((j + 1) * w) as int);
    let got = leaf_elements(row, false);
    assert(row.len() == 4 * w);
    assert forall|c: int| 0 <= c < w implies got[c] == sub[c] by {
        let t = j * w + c;
        assert((4 * t) / 4 == t && (4 * t) % 4 == 0);
        assert((4 * t + 1) / 4 == t && (4 * t + 1) % 4 == 1);
        assert((4 * t + 2) / 4 == t && (4 * t + 2) % 4 == 2);
        assert((4 * t + 3) / 4 == t && (4 * t + 3) % 4 == 3);
        assert(row[4 * c] == m.0[4 * t]);
        assert(row[4 * c + 1] == m.0[4 * t + 1]);
        assert(row[4 * c + 2] == m.0[4 * t + 2]);
        assert(row[4 * c + 3] == m.0[4 * t + 3]);
    }
    assert(got =~= sub);
}

/// The interleaved codeword of base-field values.
pub fn encode_interleaved_base(
    values: &Vec<Felt>,
    ff: usize,
    log_inv_rate: usize,
    v: usize,
) -> (r: Matrix)
    requires
        values@.len() == pow2(v as nat),
        ff <= v,
        v - ff + log_inv_rate <= 24,
        pow2((v + log_inv_rate) as nat) <= usize::MAX,
    ensures
        r.width == pow2(ff as nat),
        lift(fvals(r.values@)) == codeword(
            lift(fvals(values@)),
            ff as nat,
            (v - ff + log_inv_rate) as nat,
        ),
        r.values@.len() == pow2((v - ff + log_inv_rate) as nat) * pow2(ff as nat),
{
    let log_height: usize = v - ff + log_inv_rate;
    proof {
        lemma_pow2_adds(ff as nat, log_height as nat);
        pow2_above((v + log_inv_rate) as nat);
        pow2_le(ff as nat, (v + log_inv_rate) as nat);
        pow2_le(v as nat, (v + log_inv_rate) as nat);
        lemma_pow2_pos(ff as nat);
        assert(pow2(log_height as nat) * pow2(ff as nat) == pow2((v + log_inv_rate) as nat))
            by (nonlinear_arith)
            requires
                pow2(ff as nat) * pow2(log_height as nat) == pow2((v + log_inv_rate) as nat),
        ;
    }
    let width: usize = pow2_usize(ff);
    let total: usize = pow2_usize(v + log_inv_rate);
    let mut rows = crate::transcript::copy_felts(values);
    while rows.len() < total
        invariant
            values@.len() <= rows@.len() <= total,
            forall|i: int|
                0 <= i < rows@.len() ==> (#[trigger] rows@[i])@ == (if i < values@.len() {
                    values@[i]@
                } else {
                    0
                }),
        decreases total - rows@.len(),
    {
        rows.push(Felt::zero());
    }
    let out = dft_base(&rows, width, log_height);
    proof {
        let f = lift(fvals(values@));
        let p = padded(f, pow2(log_height as nat) * pow2(ff as nat));
        assert(lift(fvals(rows@)) =~= p);
        lemma_dft_unique(p, width as nat, log_height as nat, lift(fvals(out@)));
        assert(lift(fvals(out@)).len() == out@.len());
    }
    Matrix { values: out, width }
}

/// The interleaved codeword of extension values, flattened to base-field storage.
pub fn encode_interleaved_ef(
    values: &Vec<Ext>,
    ff: usize,
    log_inv_rate: usize,
    v: usize,
) -> (r: Matrix)
    requires
        values@.len() == pow2(v as nat),
        ff <= v,
        v - ff + log_inv_rate <= 26,
        4 * pow2((v + log_inv_rate) as nat) <= usize::MAX,
    ensures
        matrix_val(r) == ext_matrix(
            evals(values@),
            ff as nat,
            (v - ff + log_inv_rate) as nat,
        ),
        r.width == 4 * pow2(ff as nat),
        r.values@.len() == pow2((v - ff + log_inv_rate) as nat) * (4 * pow2(ff as nat)),
{
    let log_height: usize = v - ff + log_inv_rate;
    proof {
        lemma_pow2_adds(ff as nat, log_height as nat);
        pow2_above((v + log_inv_rate) as nat);
        pow2_le(ff as nat, (v + log_inv_rate) as nat);
        pow2_le(v as nat, (v + log_inv_rate) as nat);
        lemma_pow2_pos(ff as nat);
        assert(pow2(log_height as nat) * pow2(ff as nat) == pow2((v + log_inv_rate) as nat))
            by (nonlinear_arith)
            requires
                pow2(ff as nat) * pow2(log_height as nat) == pow2((v + log_inv_rate) as nat),
        ;
    }
    let width: usize = pow2_usize(ff);
    let total: usize = pow2_usize(v + log_inv_rate);
    let mut rows = crate::multilinear::copy_exts(values.as_slice());
    while rows.len() < total
        invariant
            values@.len() <= rows@.len() <= total,
            forall|i: int|
                0 <= i < rows@.len() ==> (#[trigger] rows@[i])@ == (if i < values@.len() {
                    values@[i]@
                } else {
                    e_zero()
                }),
        decreases total - rows@.len(),
    {
        rows.push(Ext::zero());
    }
    let out = dft_ext(&rows, width, log_height);
    let ghost cw = codeword(evals(values@), ff as nat, log_height as nat);
    proof {
        let p = padded(evals(values@), pow2(log_height as nat) * pow2(ff as nat));
        assert(evals(rows@) =~= p);
        lemma_dft_unique(p, width as nat, log_height as nat, evals(out@));
        assert(evals(out@).len() == out@.len());
    }
    let mut base: Vec<Felt> = Vec::new();
    let mut i: usize = 0;
    while i < out.len()
        invariant
            i <= out@.len(),
            evals(out@) == cw,
            base@.len() == 4 * i,
            forall|t: int| 0 <= t < 4 * i ==> (#[trigger] base@[t])@ == flattened(cw)[t],
        decreases out@.len() - i,
    {
        let e = out[i];
        proof {
            let k = i as int;
            assert(evals(out@)[k] == e@);
            assert((4 * k) / 4 == k && (4 * k) % 4 == 0);
            assert((4 * k + 1) / 4 == k && (4 * k + 1) % 4 == 1);
            assert((4 * k + 2) / 4 == k && (4 * k + 2) % 4 == 2);
            assert((4 * k + 3) / 4 == k && (4 * k + 3) % 4 == 3);
            assert(cw.len() == out@.len());
        }
        base.push(e.c0);
        base.push(e.c1);
        base.push(e.c2);
        base.push(e.c3);
        i = i + 1;
    }
    proof {
        assert(fvals(base@) =~= flattened(cw));
        assert(4 * (pow2(log_height as nat) * pow2(ff as nat)) == pow2(log_height as nat) * (4
            * pow2(ff as nat))) by (nonlinear_arith);
    }
    Matrix { values: base, width: width * 4 }
}

} // verus!
