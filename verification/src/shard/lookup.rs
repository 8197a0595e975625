//! Lookups between chips, and the first layer of the lookup argument.
//!
//! A lookup sends or receives a tuple of columns with a multiplicity. On one row it is
//! the fraction of the signed multiplicity over `alpha + beta_0 * kind + sum of
//! beta_k * value_k`.
use vstd::prelude::*;
use crate::arith::{ceil_log2, ceil_log2_of};
use crate::ext::{embed, evals, fvals, Ext, E4};
use crate::felt::{fadd, fmul, fsub, reduce, Felt};
use crate::whir::encode::cell_bound;

verus! {

/// A column of a chip's trace.
#[derive(Clone, Copy, Debug)]
pub enum PairCol {
    /// A column of the preprocessed trace.
    Preprocessed(usize),
    /// A column of the main trace.
    Main(usize),
}

/// A linear combination of columns, plus a constant.
#[derive(Debug)]
pub struct VirtualPairCol {
    /// The columns with their weights.
    pub column_weights: Vec<(PairCol, Felt)>,
    /// The constant.
    pub constant: Felt,
}

/// The kind of a lookup.
#[derive(Clone, Copy, Debug)]
pub struct LookupKind {
    /// The number that tells kinds apart in the argument.
    pub argument_index: usize,
    /// Whether the kind's balance is closed by the public values.
    pub closed_by_public_values: bool,
}

/// A lookup: the values looked up, how often, and of which kind.
#[derive(Debug)]
pub struct Lookup {
    /// The values.
    pub values: Vec<VirtualPairCol>,
    /// The multiplicity.
    pub multiplicity: VirtualPairCol,
    /// The kind.
    pub kind: LookupKind,
}

impl LookupKind {
    /// Byte operations.
    pub fn byte() -> (r: LookupKind)
        ensures
            r == (LookupKind { argument_index: 4, closed_by_public_values: false }),
    {
        LookupKind { argument_index: 4, closed_by_public_values: false }
    }

    /// Range checks.
    pub fn range() -> (r: LookupKind)
        ensures
            r == (LookupKind { argument_index: 5, closed_by_public_values: false }),
    {
        LookupKind { argument_index: 5, closed_by_public_values: false }
    }
}

impl PairCol {
    /// Whether the column exists in rows of the given widths.
    pub open spec fn fits(self, prep: nat, main: nat) -> bool {
        match self {
            PairCol::Preprocessed(i) => i < prep,
            PairCol::Main(i) => i < main,
        }
    }

    /// The entry of the column in a row.
    pub open spec fn at<T>(self, prep: Seq<T>, main: Seq<T>) -> T {
        match self {
            PairCol::Preprocessed(i) => prep[i as int],
            PairCol::Main(i) => main[i as int],
        }
    }
}

impl VirtualPairCol {
    /// Whether every column exists in rows of the given widths.
    pub open spec fn fits(self, prep: nat, main: nat) -> bool {
        forall|i: int|
            0 <= i < self.column_weights@.len() ==> (#[trigger] self.column_weights@[i]).0.fits(
                prep,
                main,
            )
    }

    /// The constant plus the first `k` weighted columns of a base-field row.
    pub open spec fn base_value(self, prep: Seq<int>, main: Seq<int>, k: nat) -> int
        decreases k,
    {
        if k == 0 {
            self.constant@
        } else {
            let cw = self.column_weights@[k - 1];
            fadd(
                self.base_value(prep, main, (k - 1) as nat),
                fmul(cw.0.at(prep, main), cw.1@),
            )
        }
    }

    /// The constant plus the first `k` weighted columns of a row of extension elements.
    pub open spec fn ext_value(self, prep: Seq<E4>, main: Seq<E4>, k: nat) -> E4
        decreases k,
    {
        if k == 0 {
            embed(self.constant@)
        } else {
            let cw = self.column_weights@[k - 1];
            self.ext_value(prep, main, (k - 1) as nat) + cw.0.at(prep, main) * embed(cw.1@)
        }
    }

    /// The combination's value on a base-field row.
    pub fn apply(&self, preprocessed: &[Felt], main: &[Felt]) -> (r: Felt)
        requires
            self.fits(preprocessed@.len(), main@.len()),
        ensures
            r@ == self.base_value(
                fvals(preprocessed@),
                fvals(main@),
                self.column_weights@.len(),
            ),
    {
        let mut acc = self.constant;
        let mut i: usize = 0;
        while i < self.column_weights.len()
            invariant
                i <= self.column_weights@.len(),
                self.fits(preprocessed@.len(), main@.len()),
                acc@ == self.base_value(fvals(preprocessed@), fvals(main@), i as nat),
            decreases self.column_weights@.len() - i,
        {
            let (col, weight) = self.column_weights[i];
            proof {
                assert(self.column_weights@[i as int].0.fits(preprocessed@.len(), main@.len()));
            }
            let v = match col {
                PairCol::Preprocessed(j) => preprocessed[j],
                PairCol::Main(j) => main[j],
            };
            acc = acc.plus(v.times(weight));
            i = i + 1;
        }
        acc
    }

    /// The combination's value on a row of extension elements.
    pub fn apply_ext(&self, preprocessed: &[Ext], main: &[Ext]) -> (r: Ext)
        requires
            self.fits(preprocessed@.len(), main@.len()),
        ensures
            r@ == self.ext_value(
                evals(preprocessed@),
                evals(main@),
                self.column_weights@.len(),
            ),
    {
        let mut acc = Ext::from_base(self.constant);
        let mut i: usize = 0;
        while i < self.column_weights.len()
            invariant
                i <= self.column_weights@.len(),
                self.fits(preprocessed@.len(), main@.len()),
                acc@ == self.ext_value(evals(preprocessed@), evals(main@), i as nat),
            decreases self.column_weights@.len() - i,
        {
            let (col, weight) = self.column_weights[i];
            proof {
                assert(self.column_weights@[i as int].0.fits(preprocessed@.len(), main@.len()));
            }
            let v = match col {
                PairCol::Preprocessed(j) => preprocessed[j],
                PairCol::Main(j) => main[j],
            };
            acc = acc.plus(v.times(Ext::from_base(weight)));
            i = i + 1;
        }
        acc
    }
}

impl Lookup {
    /// Whether every column exists in rows of the given widths.
    pub open spec fn fits(self, prep: nat, main: nat) -> bool {
        &&& self.multiplicity.fits(prep, main)
        &&& forall|i: int|
            0 <= i < self.values@.len() ==> (#[trigger] self.values@[i]).fits(prep, main)
    }

    /// The denominator on a base-field row, up to the first `k` values.
    pub open spec fn base_denominator(
        self,
        prep: Seq<int>,
        main: Seq<int>,
        alpha: E4,
        betas: Seq<E4>,
        k: nat,
    ) -> E4
        decreases k,
    {
        if k == 0 {
            alpha + betas[0] * embed(reduce(self.kind.argument_index as int))
        } else {
            let v = self.values@[k - 1];
            self.base_denominator(prep, main, alpha, betas, (k - 1) as nat) + betas[k as int]
                * embed(v.base_value(prep, main, v.column_weights@.len()))
        }
    }

    /// The denominator on a row of extension elements, up to the first `k` values.
    pub open spec fn ext_denominator(
        self,
        prep: Seq<E4>,
        main: Seq<E4>,
        alpha: E4,
        betas: Seq<E4>,
        k: nat,
    ) -> E4
        decreases k,
    {
        if k == 0 {
            alpha + betas[0] * embed(reduce(self.kind.argument_index as int))
        } else {
            let v = self.values@[k - 1];
            self.ext_denominator(prep, main, alpha, betas, (k - 1) as nat) + betas[k as int]
                * v.ext_value(prep, main, v.column_weights@.len())
        }
    }

    /// The number of values that a list of weights covers, after the weight of the kind.
    pub open spec fn covered(self, betas: nat) -> nat {
        if self.values@.len() < betas {
            self.values@.len()
        } else {
            (betas - 1) as nat
        }
    }

    /// The fraction on a row of extension elements.
    pub open spec fn ext_fraction(
        self,
        prep: Seq<E4>,
        main: Seq<E4>,
        alpha: E4,
        betas: Seq<E4>,
    ) -> (E4, E4) {
        (
            self.multiplicity.ext_value(prep, main, self.multiplicity.column_weights@.len()),
            self.ext_denominator(prep, main, alpha, betas, self.covered(betas.len())),
        )
    }

    /// Numerator and denominator on a row of extension elements, the numerator without
    /// sign.
    pub fn eval(&self, preprocessed: &[Ext], main: &[Ext], alpha: Ext, betas: &[Ext]) -> (r: (
        Ext,
        Ext,
    ))
        requires
            betas@.len() > 0,
            self.fits(preprocessed@.len(), main@.len()),
        ensures
            (r.0@, r.1@) == self.ext_fraction(
                evals(preprocessed@),
                evals(main@),
                alpha@,
                evals(betas@),
            ),
    {
        let index = Ext::from_base(Felt::from_usize(self.kind.argument_index));
        let mut denominator = alpha.plus(betas[0].times(index));
        let ghost gp = evals(preprocessed@);
        let ghost gm = evals(main@);
        let ghost gb = evals(betas@);
        let mut i: usize = 0;
        while i < self.values.len() && i < betas.len() - 1
            invariant
                i <= self.values@.len(),
                i <= betas@.len() - 1,
                betas@.len() > 0,
                self.fits(preprocessed@.len(), main@.len()),
                gp == evals(preprocessed@),
                gm == evals(main@),
                gb == evals(betas@),
                denominator@ == self.ext_denominator(gp, gm, alpha@, gb, i as nat),
            decreases self.values@.len() - i,
        {
            proof {
                assert(self.values@[i as int].fits(preprocessed@.len(), main@.len()));
            }
            let v = self.values[i].apply_ext(preprocessed, main);
            denominator = denominator.plus(betas[i + 1].times(v));
            i = i + 1;
        }
        (self.multiplicity.apply_ext(preprocessed, main), denominator)
    }
}

/// The fraction of a lookup on a base-field row: the multiplicity, negated for a
/// receive, and the denominator.
pub open spec fn interaction_fraction(
    lookup: Lookup,
    prep: Seq<int>,
    main: Seq<int>,
    is_send: bool,
    alpha: E4,
    betas: Seq<E4>,
) -> (int, E4) {
    let m = lookup.multiplicity.base_value(
        prep,
        main,
        lookup.multiplicity.column_weights@.len(),
    );
    (
        if is_send {
            m
        } else {
            fsub(0, m)
        },
        lookup.base_denominator(prep, main, alpha, betas, lookup.covered(betas.len())),
    )
}

/// The fraction of a lookup on one row.
pub fn generate_interaction_vals(
    interaction: &Lookup,
    preprocessed_row: &[Felt],
    main_row: &[Felt],
    is_send: bool,
    alpha: Ext,
    betas: &[Ext],
) -> (r: (Felt, Ext))
    requires
        betas@.len() > 0,
        interaction.fits(preprocessed_row@.len(), main_row@.len()),
    ensures
        (r.0@, r.1@) == interaction_fraction(
            *interaction,
            fvals(preprocessed_row@),
            fvals(main_row@),
            is_send,
            alpha@,
            evals(betas@),
        ),
{
    let index = Ext::from_base(Felt::from_usize(interaction.kind.argument_index));
    let mut denominator = alpha.plus(betas[0].times(index));
    let ghost gp = fvals(preprocessed_row@);
    let ghost gm = fvals(main_row@);
    let ghost gb = evals(betas@);
    let mut i: usize = 0;
    while i < interaction.values.len() && i < betas.len() - 1
        invariant
            i <= interaction.values@.len(),
            i <= betas@.len() - 1,
            betas@.len() > 0,
            interaction.fits(preprocessed_row@.len(), main_row@.len()),
            gp == fvals(preprocessed_row@),
            gm == fvals(main_row@),
            gb == evals(betas@),
            denominator@ == interaction.base_denominator(gp, gm, alpha@, gb, i as nat),
        decreases interaction.values@.len() - i,
    {
        proof {
            assert(interaction.values@[i as int].fits(preprocessed_row@.len(), main_row@.len()));
        }
        let v = interaction.values[i].apply(preprocessed_row, main_row);
        denominator = denominator.plus(betas[i + 1].times(Ext::from_base(v)));
        i = i + 1;
    }
    let mult = interaction.multiplicity.apply(preprocessed_row, main_row);
    let signed = if is_send {
        mult
    } else {
        Felt::zero().minus(mult)
    };
    (signed, denominator)
}

/// A lookup with its direction.
pub struct Interaction<'a> {
    /// The lookup.
    pub lookup: &'a Lookup,
    /// Whether it is sent.
    pub is_send: bool,
}

/// Row `i` of a row-major table, or an empty row of an empty table.
pub open spec fn table_row(values: Seq<int>, width: nat, i: int) -> Seq<int> {
    values.subrange(i * width, (i + 1) * width)
}

/// The number of whole rows of a row-major table.
pub open spec fn table_height(len: nat, width: nat) -> nat {
    if width == 0 {
        0
    } else {
        len / width
    }
}

/// Whether a table is long enough for `height` rows, and every lookup fits its rows.
pub open spec fn tables_fit(
    interactions: Seq<Interaction>,
    main_len: nat,
    main_width: nat,
    prep: Option<(nat, nat)>,
    betas: nat,
) -> bool {
    let height = table_height(main_len, main_width);
    let prep_width = match prep {
        Some((_, w)) => w,
        None => 0,
    };
    &&& betas > 0
    &&& height * interactions.len() <= usize::MAX
    &&& prep matches Some((len, w)) ==> height * w <= len
    &&& forall|i: int|
        0 <= i < interactions.len() ==> (#[trigger] interactions[i]).lookup.fits(
            prep_width,
            main_width,
        )
}

/// The preprocessed row beside main row `i`.
pub open spec fn prep_row(prep: Option<(Seq<int>, nat)>, i: int) -> Seq<int> {
    match prep {
        Some((values, w)) => if w > 0 {
            table_row(values, w, i)
        } else {
            Seq::empty()
        },
        None => Seq::empty(),
    }
}

/// The fraction of interaction `c` on row `i`.
pub open spec fn table_fraction(
    interactions: Seq<Interaction>,
    main: Seq<int>,
    main_width: nat,
    prep: Option<(Seq<int>, nat)>,
    alpha: E4,
    betas: Seq<E4>,
    i: int,
    c: int,
) -> (int, E4) {
    interaction_fraction(
        *interactions[c].lookup,
        prep_row(prep, i),
        table_row(main, main_width, i),
        interactions[c].is_send,
        alpha,
        betas,
    )
}

/// A preprocessed trace: entries row by row, and the number of columns.
pub struct TraceRef<'a> {
    /// The entries.
    pub values: &'a Vec<Felt>,
    /// The number of columns.
    pub width: usize,
}

/// The entries and width of an optional trace.
pub open spec fn trace_val(t: Option<TraceRef>) -> Option<(Seq<int>, nat)> {
    match t {
        Some(r) => Some((fvals(r.values@), r.width as nat)),
        None => None,
    }
}

/// The length and width of an optional trace.
pub open spec fn trace_dims(t: Option<TraceRef>) -> Option<(nat, nat)> {
    match t {
        Some(r) => Some((r.values@.len(), r.width as nat)),
        None => None,
    }
}

/// Builds a chip's tables of numerators and denominators, row-major, with one column
/// for each interaction.
pub fn build_chip_interaction_tables(
    interactions: &Vec<Interaction>,
    main_values: &Vec<Felt>,
    main_width: usize,
    preprocessed_trace: Option<TraceRef>,
    alpha: Ext,
    betas: &[Ext],
) -> (r: (Vec<Felt>, Vec<Ext>))
    requires
        tables_fit(
            interactions@,
            main_values@.len(),
            main_width as nat,
            trace_dims(preprocessed_trace),
            betas@.len(),
        ),
    ensures
        ({
            let height = table_height(main_values@.len(), main_width as nat);
            let n = interactions@.len();
            &&& r.0@.len() == height * n
            &&& r.1@.len() == height * n
            &&& forall|i: int, c: int|
                0 <= i < height && 0 <= c < n ==> ((#[trigger] r.0@[i * n + c])@, r.1@[i * n + c]@)
                    == table_fraction(
                    interactions@,
                    fvals(main_values@),
                    main_width as nat,
                    trace_val(preprocessed_trace),
                    alpha@,
                    evals(betas@),
                    i,
                    c,
                )
        }),
{
    let n: usize = interactions.len();
    let height: usize = if main_width == 0 {
        0
    } else {
        main_values.len() / main_width
    };
    let total: usize = main_values.len();
    let empty: Vec<Felt> = Vec::new();
    let ghost gm = fvals(main_values@);
    let ghost gt = trace_val(preprocessed_trace);
    let ghost gb = evals(betas@);
    let mut numer: Vec<Felt> = Vec::new();
    let mut denom: Vec<Ext> = Vec::new();
    let mut i: usize = 0;
    proof {
        vstd::arithmetic::mul::lemma_mul_basics(n as int);
    }
    while i < height
        invariant
            i <= height,
            total == main_values@.len(),
            n == interactions@.len(),
            height == table_height(main_values@.len(), main_width as nat),
            tables_fit(
                interactions@,
                main_values@.len(),
                main_width as nat,
                trace_dims(preprocessed_trace),
                betas@.len(),
            ),
            empty@.len() == 0,
            gm == fvals(main_values@),
            gt == trace_val(preprocessed_trace),
            gb == evals(betas@),
            numer@.len() == i * n,
            denom@.len() == i * n,
            forall|k: int, c: int|
                0 <= k < i && 0 <= c < n ==> ((#[trigger] numer@[k * n + c])@, denom@[k * n + c]@)
                    == table_fraction(
                    interactions@,
                    gm,
                    main_width as nat,
                    gt,
                    alpha@,
                    gb,
                    k,
                    c,
                ),
        decreases height - i,
    {
        proof {
            row_within(main_values@.len(), main_width as nat, height as nat, i as nat);
        }
        let main_row = vstd::slice::slice_subrange(
            main_values.as_slice(),
            i * main_width,
            (i + 1) * main_width,
        );
        let prep: &[Felt] = match &preprocessed_trace {
            Some(t) => if t.width > 0 {
                let have: usize = t.values.len();
                proof {
                    prep_within(t.values@.len(), t.width as nat, height as nat, i as nat);
                }
                vstd::slice::slice_subrange(t.values.as_slice(), i * t.width, (i + 1) * t.width)
            } else {
                empty.as_slice()
            },
            None => empty.as_slice(),
        };
        proof {
            assert(fvals(main_row@) =~= table_row(gm, main_width as nat, i as int));
            assert(fvals(prep@) =~= prep_row(gt, i as int));
        }
        let mut c: usize = 0;
        while c < n
            invariant
                c <= n,
                i < height,
                n == interactions@.len(),
                height == table_height(main_values@.len(), main_width as nat),
                tables_fit(
                    interactions@,
                    main_values@.len(),
                    main_width as nat,
                    trace_dims(preprocessed_trace),
                    betas@.len(),
                ),
                gb == evals(betas@),
                fvals(main_row@) == table_row(gm, main_width as nat, i as int),
                fvals(prep@) == prep_row(gt, i as int),
                main_row@.len() == main_width,
                prep@.len() == (match trace_dims(preprocessed_trace) {
                    Some((_, w)) => w,
                    None => 0,
                }),
                numer@.len() == i * n + c,
                denom@.len() == i * n + c,
                forall|k: int, d: int|
                    0 <= k < i && 0 <= d < n ==> (
                        (#[trigger] numer@[k * n + d])@,
                        denom@[k * n + d]@,
                    ) == table_fraction(
                        interactions@,
                        gm,
                        main_width as nat,
                        gt,
                        alpha@,
                        gb,
                        k,
                        d,
                    ),
                forall|d: int|
                    0 <= d < c ==> ((#[trigger] numer@[i * n + d])@, denom@[i * n + d]@)
                        == table_fraction(
                        interactions@,
                        gm,
                        main_width as nat,
                        gt,
                        alpha@,
                        gb,
                        i as int,
                        d,
                    ),
            decreases n - c,
        {
            let it = &interactions[c];
            proof {
                assert(interactions@[c as int].lookup.fits(prep@.len(), main_row@.len()));
            }
            let (x, y) = generate_interaction_vals(
                it.lookup,
                prep,
                main_row,
                it.is_send,
                alpha,
                betas,
            );
            let ghost numer0 = numer@;
            let ghost denom0 = denom@;
            numer.push(x);
            denom.push(y);
            proof {
                assert forall|k: int, d: int| 0 <= k < i && 0 <= d < n implies (
                    (#[trigger] numer@[k * n + d])@,
                    denom@[k * n + d]@,
                ) == table_fraction(
                    interactions@,
                    gm,
                    main_width as nat,
                    gt,
                    alpha@,
                    gb,
                    k,
                    d,
                ) by {
                    cell_bound(k, d, i as int, n as int);
                    assert(numer@[k * n + d] == numer0[k * n + d]);
                    assert(denom@[k * n + d] == denom0[k * n + d]);
                }
                assert forall|d: int| 0 <= d < c + 1 implies (
                    (#[trigger] numer@[i * n + d])@,
                    denom@[i * n + d]@,
                ) == table_fraction(
                    interactions@,
                    gm,
                    main_width as nat,
                    gt,
                    alpha@,
                    gb,
                    i as int,
                    d,
                ) by {
                    if d < c {
                        assert(numer@[i * n + d] == numer0[i * n + d]);
                        assert(denom@[i * n + d] == denom0[i * n + d]);
                    }
                }
            }
            c = c + 1;
        }
        proof {
            assert((i + 1) * n == i * n + n) by (nonlinear_arith);
            assert forall|k: int, d: int| 0 <= k < i + 1 && 0 <= d < n implies (
                (#[trigger] numer@[k * n + d])@,
                denom@[k * n + d]@,
            ) == table_fraction(
                interactions@,
                gm,
                main_width as nat,
                gt,
                alpha@,
                gb,
                k,
                d,
            ) by {
                if k == i {
                    assert(numer@[i * n + d] == numer@[k * n + d]);
                }
            }
        }
        i = i + 1;
    }
    (numer, denom)
}

/// A row of a table lies within it.
pub proof fn row_within(len: nat, width: nat, height: nat, i: nat)
    requires
        height == table_height(len, width),
        i < height,
    ensures
        width > 0,
        (i + 1) * width <= len,
        i * width <= (i + 1) * width,
        (i + 1) * width - i * width == width,
        i * width >= 0,
{
    vstd::arithmetic::div_mod::lemma_fundamental_div_mod(len as int, width as int);
    assert((i + 1) * width <= height * width) by (nonlinear_arith)
        requires
            i + 1 <= height,
    ;
    assert(height * width <= len) by (nonlinear_arith)
        requires
            len == width * height + len % width,
    ;
    assert((i + 1) * width == i * width + width) by (nonlinear_arith);
    assert(i * width >= 0) by (nonlinear_arith);
}

proof fn prep_within(len: nat, width: nat, height: nat, i: nat)
    requires
        height * width <= len,
        i < height,
    ensures
        (i + 1) * width <= len,
        i * width <= (i + 1) * width,
        (i + 1) * width - i * width == width,
        i * width >= 0,
{
    assert((i + 1) * width <= height * width) by (nonlinear_arith)
        requires
            i + 1 <= height,
    ;
    assert((i + 1) * width == i * width + width) by (nonlinear_arith);
    assert(i * width >= 0) by (nonlinear_arith);
}

/// The rows of one parity of a table of `rows` rows and `cols` columns: entry `t` is
/// column `t % cols` of row `2 * (t / cols) + parity`.
pub open spec fn parity_rows<T>(values: Seq<T>, cols: nat, rows: nat, parity: nat) -> Seq<T> {
    if cols == 0 || rows == 0 {
        Seq::empty()
    } else {
        Seq::new(
            ((rows + 1 - parity) / 2) as nat * cols,
            |t: int| values[(2 * (t / cols as int) + parity) * cols + t % cols as int],
        )
    }
}

/// Splits the first `real_rows` rows of a row-major table into its even rows and its odd
/// rows.
pub fn split_real_parity<T: Copy>(values: &[T], num_cols: usize, real_rows: usize) -> (r: (
    Vec<T>,
    Vec<T>,
))
    requires
        real_rows * num_cols <= values@.len(),
    ensures
        r.0@ == parity_rows(values@, num_cols as nat, real_rows as nat, 0),
        r.1@ == parity_rows(values@, num_cols as nat, real_rows as nat, 1),
{
    let mut even: Vec<T> = Vec::new();
    let mut odd: Vec<T> = Vec::new();
    if num_cols == 0 || real_rows == 0 {
        proof {
            assert(even@ =~= parity_rows(values@, num_cols as nat, real_rows as nat, 0));
            assert(odd@ =~= parity_rows(values@, num_cols as nat, real_rows as nat, 1));
        }
        return (even, odd);
    }
    let total: usize = values.len();
    let ghost cols = num_cols as int;
    let mut r: usize = 0;
    while r < real_rows
        invariant
            r <= real_rows,
            num_cols > 0,
            cols == num_cols,
            total == values@.len(),
            real_rows * num_cols <= values@.len(),
            even@.len() == ((r + 1) / 2) * cols,
            odd@.len() == (r / 2) * cols,
            forall|t: int|
                0 <= t < even@.len() ==> #[trigger] even@[t] == values@[(2 * (t / cols)) * cols + t
                    % cols],
            forall|t: int|
                0 <= t < odd@.len() ==> #[trigger] odd@[t] == values@[(2 * (t / cols) + 1) * cols
                    + t % cols],
        decreases real_rows - r,
    {
        let ghost even0 = even@;
        let ghost odd0 = odd@;
        let ghost half = (r / 2) as int;
        let mut c: usize = 0;
        proof {
            if r % 2 == 0 {
                assert((r + 1) / 2 == half);
                assert(even@.len() == half * cols);
            } else {
                assert(odd@.len() == half * cols);
            }
        }
        while c < num_cols
            invariant
                c <= num_cols,
                r < real_rows,
                num_cols > 0,
                cols == num_cols,
                total == values@.len(),
                real_rows * num_cols <= values@.len(),
                half == r / 2,
                r % 2 == 0 ==> even@.len() == half * cols + c && odd@ == odd0,
                r % 2 == 1 ==> odd@.len() == half * cols + c && even@ == even0,
                forall|t: int|
                    0 <= t < even@.len() ==> #[trigger] even@[t] == values@[(2 * (t / cols)) * cols
                        + t % cols],
                forall|t: int|
                    0 <= t < odd@.len() ==> #[trigger] odd@[t] == values@[(2 * (t / cols) + 1)
                        * cols + t % cols],
            decreases num_cols - c,
        {
            proof {
                cell_bound(r as int, c as int, real_rows as int, cols);
                cell_bound(half, c as int, half + 1, cols);
                assert(r as int * cols >= 0) by (nonlinear_arith)
                    requires
                        cols > 0,
                ;
            }
            let v = values[r * num_cols + c];
            if r % 2 == 0 {
                even.push(v);
                proof {
                    let t = half * cols + c;
                    assert(2 * half == r);
                    assert(even@[t] == v);
                }
            } else {
                odd.push(v);
                proof {
                    let t = half * cols + c;
                    assert(2 * half + 1 == r);
                    assert(odd@[t] == v);
                }
            }
            c = c + 1;
        }
        proof {
            assert((half + 1) * cols == half * cols + cols) by (nonlinear_arith);
            if r % 2 == 0 {
                assert((r + 2) / 2 == half + 1 && (r + 1) / 2 == half);
            } else {
                assert((r + 2) / 2 == half + 1 && (r + 1) / 2 == half + 1);
            }
        }
        r = r + 1;
    }
    proof {
        assert(even@ =~= parity_rows(values@, num_cols as nat, real_rows as nat, 0));
        assert(odd@ =~= parity_rows(values@, num_cols as nat, real_rows as nat, 1));
    }
    (even, odd)
}

/// The two parities together hold every row: row `i` is row `i / 2` of the half of its
/// own parity.
pub proof fn parity_rows_cover<T>(values: Seq<T>, cols: nat, rows: nat, i: int, c: int)
    requires
        rows * cols <= values.len(),
        0 <= i < rows,
        0 <= c < cols,
    ensures
        parity_rows(values, cols, rows, (i % 2) as nat)[(i / 2) * cols + c] == values[i * cols + c],
{
    let p = (i % 2) as nat;
    let k = i / 2;
    assert(k < (rows + 1 - p) / 2);
    cell_bound(k, c, ((rows + 1 - p) / 2) as int, cols as int);
    assert(2 * k + p == i);
}

/// The lookups of one chip.
#[derive(Debug)]
pub struct ChipLookups {
    /// What the chip sends.
    pub sends: Vec<Lookup>,
    /// What the chip receives.
    pub receives: Vec<Lookup>,
}

/// A chip's trace: entries row by row, and the number of columns. A chip without a trace
/// has no columns.
#[derive(Debug)]
pub struct Trace {
    /// The entries.
    pub values: Vec<Felt>,
    /// The number of columns.
    pub width: usize,
}

/// One half of a chip's table: the real rows of `2^num_row_variables`.
#[derive(Debug)]
pub struct RowMajorTable<T> {
    /// The real rows.
    pub cells: Vec<T>,
    /// The logarithm of the number of rows, real and virtual.
    pub num_row_variables: usize,
    /// The number of columns.
    pub num_cols: usize,
    /// The number of real rows.
    pub real_rows: usize,
}

/// The first layer of the lookup argument: for each chip the even and the odd rows of its
/// tables of numerators and denominators.
#[derive(Debug)]
pub struct LogUpGkrCpuLayer {
    /// The even rows of the numerators.
    pub numerator_0: Vec<RowMajorTable<Felt>>,
    /// The even rows of the denominators.
    pub denominator_0: Vec<RowMajorTable<Ext>>,
    /// The odd rows of the numerators.
    pub numerator_1: Vec<RowMajorTable<Felt>>,
    /// The odd rows of the denominators.
    pub denominator_1: Vec<RowMajorTable<Ext>>,
    /// The logarithm of the number of rows of each half.
    pub num_row_variables: usize,
    /// The logarithm of the number of interactions of all chips, rounded up.
    pub num_interaction_variables: usize,
}

impl ChipLookups {
    /// The number of interactions.
    pub open spec fn count(self) -> nat {
        self.sends@.len() + self.receives@.len()
    }

    /// Interaction `c`: the sends, then the receives.
    pub open spec fn at(self, c: int) -> (Lookup, bool) {
        if c < self.sends@.len() {
            (self.sends@[c], true)
        } else {
            (self.receives@[c - self.sends@.len()], false)
        }
    }

    /// Whether every lookup fits rows of the given widths.
    pub open spec fn fits(self, prep: nat, main: nat) -> bool {
        &&& forall|i: int|
            0 <= i < self.sends@.len() ==> (#[trigger] self.sends@[i]).fits(prep, main)
        &&& forall|i: int|
            0 <= i < self.receives@.len() ==> (#[trigger] self.receives@[i]).fits(prep, main)
    }

    /// The sends, then the receives.
    pub fn interactions(&self) -> (r: Vec<Interaction>)
        ensures
            r@.len() == self.count(),
            forall|c: int|
                0 <= c < r@.len() ==> (*(#[trigger] r@[c]).lookup, r@[c].is_send) == self.at(c),
    {
        let mut out: Vec<Interaction> = Vec::new();
        let mut i: usize = 0;
        while i < self.sends.len()
            invariant
                i <= self.sends@.len(),
                out@.len() == i,
                forall|c: int|
                    0 <= c < i ==> (*(#[trigger] out@[c]).lookup, out@[c].is_send) == self.at(c),
            decreases self.sends@.len() - i,
        {
            out.push(Interaction { lookup: &self.sends[i], is_send: true });
            i = i + 1;
        }
        let mut j: usize = 0;
        while j < self.receives.len()
            invariant
                j <= self.receives@.len(),
                out@.len() == self.sends@.len() + j,
                forall|c: int|
                    0 <= c < out@.len() ==> (*(#[trigger] out@[c]).lookup, out@[c].is_send)
                        == self.at(c),
            decreases self.receives@.len() - j,
        {
            out.push(Interaction { lookup: &self.receives[j], is_send: false });
            j = j + 1;
        }
        out
    }

    /// The fraction of interaction `c` on row `i`.
    pub open spec fn fraction(
        self,
        main: (Seq<int>, nat),
        prep: Option<(Seq<int>, nat)>,
        alpha: E4,
        betas: Seq<E4>,
        i: int,
        c: int,
    ) -> (int, E4) {
        let (lookup, is_send) = self.at(c);
        interaction_fraction(
            lookup,
            prep_row(prep, i),
            table_row(main.0, main.1, i),
            is_send,
            alpha,
            betas,
        )
    }

    /// The table of numerators, row-major.
    pub open spec fn numerators(
        self,
        main: (Seq<int>, nat),
        prep: Option<(Seq<int>, nat)>,
        alpha: E4,
        betas: Seq<E4>,
    ) -> Seq<int> {
        let n = self.count();
        Seq::new(
            table_height(main.0.len(), main.1) * n,
            |t: int| self.fraction(main, prep, alpha, betas, t / n as int, t % n as int).0,
        )
    }

    /// The table of denominators, row-major.
    pub open spec fn denominators(
        self,
        main: (Seq<int>, nat),
        prep: Option<(Seq<int>, nat)>,
        alpha: E4,
        betas: Seq<E4>,
    ) -> Seq<E4> {
        let n = self.count();
        Seq::new(
            table_height(main.0.len(), main.1) * n,
            |t: int| self.fraction(main, prep, alpha, betas, t / n as int, t % n as int).1,
        )
    }

    /// Whether a chip's tables can be built.
    pub open spec fn buildable(
        self,
        main: (nat, nat),
        prep: Option<(nat, nat)>,
    ) -> bool {
        let height = table_height(main.0, main.1);
        let prep_width = match prep {
            Some((_, w)) => w,
            None => 0,
        };
        &&& self.count() <= usize::MAX
        &&& height * self.count() <= usize::MAX
        &&& prep matches Some((len, w)) ==> height * w <= len
        &&& self.fits(prep_width, main.1)
    }
}

/// The entries and width of a trace.
pub open spec fn trace_pair(t: Trace) -> (Seq<int>, nat) {
    (fvals(t.values@), t.width as nat)
}

/// The entries and width of a chip's preprocessed trace; none where it has no columns.
pub open spec fn prep_pair(t: Option<Trace>) -> Option<(Seq<int>, nat)> {
    match t {
        Some(t) => Some(trace_pair(t)),
        None => None,
    }
}

/// The length and width of a chip's preprocessed trace.
pub open spec fn prep_dims(t: Option<Trace>) -> Option<(nat, nat)> {
    match t {
        Some(t) => Some((t.values@.len(), t.width as nat)),
        None => None,
    }
}

/// The number of interactions of the first `k` chips.
pub open spec fn total_interactions(chips: Seq<ChipLookups>, k: int) -> nat
    decreases k,
{
    if k <= 0 {
        0
    } else {
        total_interactions(chips, k - 1) + chips[k - 1].count()
    }
}

proof fn total_monotone(chips: Seq<ChipLookups>, a: int, b: int)
    requires
        0 <= a <= b,
    ensures
        total_interactions(chips, a) <= total_interactions(chips, b),
    decreases b - a,
{
    if a < b {
        total_monotone(chips, a, b - 1);
    }
}

/// The number of real rows of a chip's table: none where it has no interaction.
pub open spec fn real_height(chip: ChipLookups, main: Trace) -> nat {
    if chip.count() == 0 {
        0
    } else {
        table_height(main.values@.len(), main.width as nat)
    }
}

/// Whether the dimensions are those of the half of the given parity of a chip's table.
pub open spec fn is_half(
    num_row_variables: usize,
    num_cols: usize,
    real_rows: usize,
    vars: nat,
    chip: ChipLookups,
    main: Trace,
    parity: nat,
) -> bool {
    &&& num_row_variables == vars
    &&& num_cols == chip.count()
    &&& real_rows == (real_height(chip, main) + 1 - parity) / 2
}

impl LogUpGkrCpuLayer {
    /// Whether entry `i` of the layer is made of the tables of a chip, over
    /// `2^(vars + 1)` rows.
    pub open spec fn holds(
        self,
        i: int,
        chip: ChipLookups,
        main: Trace,
        prep: Option<Trace>,
        alpha: E4,
        betas: Seq<E4>,
        vars: nat,
    ) -> bool {
        let h = real_height(chip, main);
        let n = chip.count();
        let num = chip.numerators(trace_pair(main), prep_pair(prep), alpha, betas);
        let den = chip.denominators(trace_pair(main), prep_pair(prep), alpha, betas);
        let (n0, n1) = (self.numerator_0@[i], self.numerator_1@[i]);
        let (d0, d1) = (self.denominator_0@[i], self.denominator_1@[i]);
        &&& is_half(n0.num_row_variables, n0.num_cols, n0.real_rows, vars, chip, main, 0)
        &&& is_half(n1.num_row_variables, n1.num_cols, n1.real_rows, vars, chip, main, 1)
        &&& is_half(d0.num_row_variables, d0.num_cols, d0.real_rows, vars, chip, main, 0)
        &&& is_half(d1.num_row_variables, d1.num_cols, d1.real_rows, vars, chip, main, 1)
        &&& fvals(n0.cells@) == parity_rows(num, n, h, 0)
        &&& fvals(n1.cells@) == parity_rows(num, n, h, 1)
        &&& evals(d0.cells@) == parity_rows(den, n, h, 0)
        &&& evals(d1.cells@) == parity_rows(den, n, h, 1)
    }
}

/// Splitting commutes with reading residues.
proof fn parity_fvals(values: Seq<Felt>, cols: nat, rows: nat, parity: nat)
    requires
        rows * cols <= values.len(),
        parity <= 1,
    ensures
        fvals(parity_rows(values, cols, rows, parity)) == parity_rows(
            fvals(values),
            cols,
            rows,
            parity,
        ),
{
    let a = fvals(parity_rows(values, cols, rows, parity));
    let b = parity_rows(fvals(values), cols, rows, parity);
    assert forall|t: int| 0 <= t < a.len() implies a[t] == b[t] by {
        parity_index(cols, rows, parity, t);
    }
    assert(a =~= b);
}

/// Splitting commutes with reading extension elements.
proof fn parity_evals(values: Seq<Ext>, cols: nat, rows: nat, parity: nat)
    requires
        rows * cols <= values.len(),
        parity <= 1,
    ensures
        evals(parity_rows(values, cols, rows, parity)) == parity_rows(
            evals(values),
            cols,
            rows,
            parity,
        ),
{
    let a = evals(parity_rows(values, cols, rows, parity));
    let b = parity_rows(evals(values), cols, rows, parity);
    assert forall|t: int| 0 <= t < a.len() implies a[t] == b[t] by {
        parity_index(cols, rows, parity, t);
    }
    assert(a =~= b);
}

proof fn parity_index(cols: nat, rows: nat, parity: nat, t: int)
    requires
        cols > 0,
        rows > 0,
        parity <= 1,
        0 <= t < ((rows + 1 - parity) / 2) as nat * cols,
    ensures
        0 <= (2 * (t / cols as int) + parity) * cols + t % cols as int,
        (2 * (t / cols as int) + parity) * cols + (t % (cols as int)) < rows * cols,
{
    let half = ((rows + 1 - parity) / 2) as int;
    let k = t / cols as int;
    vstd::arithmetic::div_mod::lemma_fundamental_div_mod(t, cols as int);
    assert(0 <= k < half) by (nonlinear_arith)
        requires
            t == cols * k + t % cols as int,
            0 <= t % (cols as int) < cols,
            0 <= t < half * cols,
            cols > 0,
    ;
    assert(2 * k + parity < rows);
    cell_bound(2 * k + parity, t % cols as int, rows as int, cols as int);
}

/// Generates the first layer of the lookup argument from the chips' traces: every chip's
/// tables of fractions, split by the parity of the row. Rows past the real ones are not
/// written out.
pub fn generate_first_layer(
    chips: &Vec<ChipLookups>,
    preprocessed_traces: &Vec<Option<Trace>>,
    main_traces: &Vec<Trace>,
    alpha: Ext,
    betas: &[Ext],
    num_row_variables: usize,
) -> (r: LogUpGkrCpuLayer)
    requires
        num_row_variables >= 1,
        betas@.len() > 0,
        chips@.len() == main_traces@.len(),
        chips@.len() == preprocessed_traces@.len(),
        total_interactions(chips@, chips@.len() as int) <= usize::MAX,
        forall|i: int|
            0 <= i < chips@.len() ==> (#[trigger] chips@[i]).buildable(
                (main_traces@[i].values@.len(), main_traces@[i].width as nat),
                prep_dims(preprocessed_traces@[i]),
            ),
    ensures
        r.num_row_variables == num_row_variables - 1,
        r.num_interaction_variables == ceil_log2_of(
            total_interactions(chips@, chips@.len() as int),
        ),
        r.numerator_0@.len() == chips@.len(),
        r.numerator_1@.len() == chips@.len(),
        r.denominator_0@.len() == chips@.len(),
        r.denominator_1@.len() == chips@.len(),
        forall|i: int|
            0 <= i < chips@.len() ==> #[trigger] r.holds(
                i,
                chips@[i],
                main_traces@[i],
                preprocessed_traces@[i],
                alpha@,
                evals(betas@),
                (num_row_variables - 1) as nat,
            ),
{
    let mut out = LogUpGkrCpuLayer {
        numerator_0: Vec::new(),
        denominator_0: Vec::new(),
        numerator_1: Vec::new(),
        denominator_1: Vec::new(),
        num_row_variables: num_row_variables - 1,
        num_interaction_variables: 0,
    };
    let vars: usize = num_row_variables - 1;
    let ghost gb = evals(betas@);
    let mut total: usize = 0;
    let mut i: usize = 0;
    while i < chips.len()
        invariant
            i <= chips@.len(),
            num_row_variables >= 1,
            vars == num_row_variables - 1,
            betas@.len() > 0,
            gb == evals(betas@),
            chips@.len() == main_traces@.len(),
            chips@.len() == preprocessed_traces@.len(),
            total_interactions(chips@, chips@.len() as int) <= usize::MAX,
            forall|i: int|
                0 <= i < chips@.len() ==> (#[trigger] chips@[i]).buildable(
                    (main_traces@[i].values@.len(), main_traces@[i].width as nat),
                    prep_dims(preprocessed_traces@[i]),
                ),
            total == total_interactions(chips@, i as int),
            out.num_row_variables == num_row_variables - 1,
            out.numerator_0@.len() == i,
            out.numerator_1@.len() == i,
            out.denominator_0@.len() == i,
            out.denominator_1@.len() == i,
            forall|j: int|
                0 <= j < i ==> #[trigger] out.holds(
                    j,
                    chips@[j],
                    main_traces@[j],
                    preprocessed_traces@[j],
                    alpha@,
                    gb,
                    vars as nat,
                ),
        decreases chips@.len() - i,
    {
        let chip = &chips[i];
        let main = &main_traces[i];
        proof {
            total_monotone(chips@, i + 1, chips@.len() as int);
            assert(chips@[i as int].buildable(
                (main_traces@[i as int].values@.len(), main_traces@[i as int].width as nat),
                prep_dims(preprocessed_traces@[i as int]),
            ));
        }
        let list = chip.interactions();
        let n: usize = list.len();
        let prep = match &preprocessed_traces[i] {
            Some(t) => Some(TraceRef { values: &t.values, width: t.width }),
            None => None,
        };
        let ghost gprep = prep_pair(preprocessed_traces@[i as int]);
        let ghost gmain = trace_pair(*main);
        proof {
            assert(trace_val(prep) == gprep);
            let pw = match trace_dims(prep) {
                Some((_, w)) => w,
                None => 0,
            };
            assert forall|c: int| 0 <= c < list@.len() implies (#[trigger] list@[c]).lookup.fits(
                pw,
                main.width as nat,
            ) by {
                assert((*list@[c].lookup, list@[c].is_send) == chip.at(c));
                if c < chip.sends@.len() {
                    assert(chip.sends@[c].fits(pw, main.width as nat));
                } else {
                    assert(chip.receives@[c - chip.sends@.len()].fits(pw, main.width as nat));
                }
            }
        }
        let (numer, denom) = build_chip_interaction_tables(
            &list,
            &main.values,
            main.width,
            prep,
            alpha,
            betas,
        );
        let ghost height = table_height(main.values@.len(), main.width as nat);
        proof {
            let num = chip.numerators(gmain, gprep, alpha@, gb);
            let den = chip.denominators(gmain, gprep, alpha@, gb);
            assert(gmain.0.len() == main.values@.len());
            assert forall|t: int| 0 <= t < height * n implies fvals(numer@)[t] == num[t]
                && evals(denom@)[t] == den[t] by {
                let a = t / n as int;
                let c = t % n as int;
                assert(n > 0) by (nonlinear_arith)
                    requires
                        0 <= t < height * n,
                ;
                vstd::arithmetic::div_mod::lemma_fundamental_div_mod(t, n as int);
                assert(t == a * n + c) by (nonlinear_arith)
                    requires
                        t == n * a + c,
                ;
                assert(0 <= a < height) by (nonlinear_arith)
                    requires
                        t == n * a + c,
                        0 <= c < n,
                        0 <= t < height * n,
                ;
                assert((numer@[a * n + c]@, denom@[a * n + c]@) == table_fraction(
                    list@,
                    gmain.0,
                    gmain.1,
                    gprep,
                    alpha@,
                    gb,
                    a,
                    c,
                ));
                assert((*list@[c].lookup, list@[c].is_send) == chip.at(c));
            }
            assert(fvals(numer@) =~= num);
            assert(evals(denom@) =~= den);
        }
        let chip_height: usize = if n == 0 {
            0
        } else {
            numer.len() / n
        };
        proof {
            if n > 0 {
                vstd::arithmetic::div_mod::lemma_div_multiples_vanish(height as int, n as int);
                assert(height * n == n * height) by (nonlinear_arith);
            }
            assert(chip_height == real_height(*chip, *main));
            assert(chip_height * n <= numer@.len()) by {
                if n == 0 {
                    vstd::arithmetic::mul::lemma_mul_basics(chip_height as int);
                }
            }
            assert(0 * n == 0) by (nonlinear_arith);
            parity_fvals(numer@, n as nat, chip_height as nat, 0);
            parity_fvals(numer@, n as nat, chip_height as nat, 1);
            parity_evals(denom@, n as nat, chip_height as nat, 0);
            parity_evals(denom@, n as nat, chip_height as nat, 1);
        }
        let (n_even, n_odd) = split_real_parity(numer.as_slice(), n, chip_height);
        let (d_even, d_odd) = split_real_parity(denom.as_slice(), n, chip_height);
        let even: usize = chip_height / 2 + chip_height % 2;
        let odd: usize = chip_height / 2;
        let ghost before = out;
        out.numerator_0.push(
            RowMajorTable {
                cells: n_even,
                num_row_variables: vars,
                num_cols: n,
                real_rows: even,
            },
        );
        out.numerator_1.push(
            RowMajorTable { cells: n_odd, num_row_variables: vars, num_cols: n, real_rows: odd },
        );
        out.denominator_0.push(
            RowMajorTable {
                cells: d_even,
                num_row_variables: vars,
                num_cols: n,
                real_rows: even,
            },
        );
        out.denominator_1.push(
            RowMajorTable { cells: d_odd, num_row_variables: vars, num_cols: n, real_rows: odd },
        );
        proof {
            assert forall|j: int| 0 <= j < i + 1 implies #[trigger] out.holds(
                j,
                chips@[j],
                main_traces@[j],
                preprocessed_traces@[j],
                alpha@,
                gb,
                vars as nat,
            ) by {
                if j < i {
                    assert(before.holds(
                        j,
                        chips@[j],
                        main_traces@[j],
                        preprocessed_traces@[j],
                        alpha@,
                        gb,
                        vars as nat,
                    ));
                }
            }
        }
        total = total + n;
        i = i + 1;
    }
    let ghost before = out;
    out.num_interaction_variables = ceil_log2(total);
    proof {
        assert forall|j: int| 0 <= j < chips@.len() implies #[trigger] out.holds(
            j,
            chips@[j],
            main_traces@[j],
            preprocessed_traces@[j],
            alpha@,
            gb,
            vars as nat,
        ) by {
            assert(before.holds(
                j,
                chips@[j],
                main_traces@[j],
                preprocessed_traces@[j],
                alpha@,
                gb,
                vars as nat,
            ));
        }
    }
    out
}

} // verus!
