//! Opening a codeword at drawn indices.
//!
//! A query opens one row of a codeword, or one row of every stripe of a stack. The
//! row is the hypercube of the variables that the round folds.
use vstd::prelude::*;
use vstd::arithmetic::power2::pow2;
use crate::arith::pow2_usize;
use crate::ext::{e_zero, epoints, evals, fvals, lift, Ext, E4};
use crate::felt::Felt;
use crate::merkle::{merkle_accepts, merkle_verify, path_val, rows_val, Digest};
use crate::mle::{vadd, vscale};
use crate::whir::messages::{leaf_val, leaves_val, shape_error, LeafOpening, LeafVal, WhirRefusal,
    WhirVerifierError};
use crate::whir::replay::{leaf_elements, leaf_to_ef};

verus! {

/// The codeword that a query phase opens: a single one, over base or extension
/// elements, or the stripes of several commitments with the powers that combine
/// them.
pub enum SourceVal {
    Single(Seq<int>, bool),
    Stripes(Seq<Seq<int>>, Seq<nat>, Seq<Seq<E4>>),
}

/// The codeword that a query phase opens.
pub enum Source<'a> {
    /// A root, and whether the rows hold base-field elements.
    Single(&'a Digest, bool),
    /// Roots, stripe counts, and the powers that combine the stripes.
    Stripes(&'a Vec<Digest>, &'a Vec<usize>, &'a Vec<Vec<Ext>>),
}

/// Machine-size counts as numbers.
pub open spec fn counts_val(s: Seq<usize>) -> Seq<nat> {
    Seq::new(s.len(), |i: int| s[i] as nat)
}

impl<'a> View for Source<'a> {
    type V = SourceVal;

    open spec fn view(&self) -> SourceVal {
        match self {
            Source::Single(root, base) => SourceVal::Single(fvals(root@), *base),
            Source::Stripes(roots, counts, powers) => SourceVal::Stripes(
                path_val(roots@),
                counts_val(counts@),
                epoints(powers@),
            ),
        }
    }
}

impl SourceVal {
    /// The number of leaves that one query opens.
    pub open spec fn leaves_per_query(self) -> nat {
        match self {
            SourceVal::Single(_, _) => 1,
            SourceVal::Stripes(roots, _, _) => roots.len(),
        }
    }

    /// The stripe counts and powers match the roots.
    pub open spec fn consistent(self) -> bool {
        match self {
            SourceVal::Single(_, _) => true,
            SourceVal::Stripes(roots, counts, powers) => {
                &&& counts.len() == roots.len()
                &&& powers.len() == roots.len()
                &&& forall|i: int| 0 <= i < roots.len() ==> (#[trigger] powers[i]).len() == counts[i]
            },
        }
    }
}

/// `n` copies of a width.
pub open spec fn widths(n: nat, width: nat) -> Seq<nat> {
    Seq::new(n, |i: int| width)
}

/// Why the first `k` trees of a stack refuse a query, if they do. `rows_word` asks
/// for the number of rows to be checked ahead of the tree.
pub open spec fn stripes_refusal(
    roots: Seq<Seq<int>>,
    counts: Seq<nat>,
    fold: nat,
    log_height: nat,
    index: nat,
    leaves: Seq<LeafVal>,
    from: int,
    rows_word: Option<Seq<char>>,
    merkle_word: Seq<char>,
    k: nat,
) -> Option<WhirRefusal>
    decreases k,
{
    if k == 0 {
        None
    } else {
        let i = k - 1;
        match stripes_refusal(
            roots,
            counts,
            fold,
            log_height,
            index,
            leaves,
            from,
            rows_word,
            merkle_word,
            i as nat,
        ) {
            Some(e) => Some(e),
            None => {
                let leaf = leaves[from + i];
                if rows_word is Some && leaf.rows.len() != counts[i] {
                    Some(WhirRefusal::IncorrectShape(rows_word->0))
                } else if !merkle_accepts(
                    roots[i],
                    widths(counts[i], pow2(fold)),
                    pow2(log_height),
                    index,
                    leaf.rows,
                    leaf.path,
                ) {
                    Some(WhirRefusal::IncorrectShape(merkle_word))
                } else {
                    None
                }
            },
        }
    }
}

/// Why a query is refused, if it is.
pub open spec fn query_refusal(
    src: SourceVal,
    fold: nat,
    log_height: nat,
    index: nat,
    leaves: Seq<LeafVal>,
    q: nat,
    rows_word: Option<Seq<char>>,
    merkle_word: Seq<char>,
) -> Option<WhirRefusal> {
    match src {
        SourceVal::Single(root, base) => if !merkle_accepts(
            root,
            widths(
                1,
                if base {
                    pow2(fold)
                } else {
                    pow2(fold) * 4
                },
            ),
            pow2(log_height),
            index,
            leaves[q as int].rows,
            leaves[q as int].path,
        ) {
            Some(WhirRefusal::IncorrectShape(merkle_word))
        } else {
            None
        },
        SourceVal::Stripes(roots, counts, _) => stripes_refusal(
            roots,
            counts,
            fold,
            log_height,
            index,
            leaves,
            (q * roots.len()) as int,
            rows_word,
            merkle_word,
            roots.len(),
        ),
    }
}

/// A row with the first `k` of several rows added, each scaled by its power.
pub open spec fn rows_combined(
    acc: Seq<E4>,
    rows: Seq<Seq<int>>,
    powers: Seq<E4>,
    k: nat,
) -> Seq<E4>
    decreases k,
{
    if k == 0 {
        acc
    } else {
        vadd(
            rows_combined(acc, rows, powers, (k - 1) as nat),
            vscale(powers[k - 1], lift(rows[k - 1])),
        )
    }
}

/// The rows of the first `k` trees of a stack, combined by their powers.
pub open spec fn stripes_combined(
    acc: Seq<E4>,
    powers: Seq<Seq<E4>>,
    leaves: Seq<LeafVal>,
    from: int,
    k: nat,
) -> Seq<E4>
    decreases k,
{
    if k == 0 {
        acc
    } else {
        let rows = leaves[from + k - 1].rows;
        rows_combined(
            stripes_combined(acc, powers, leaves, from, (k - 1) as nat),
            rows,
            powers[k - 1],
            rows.len(),
        )
    }
}

/// A row of `2^fold` zeros.
pub open spec fn zero_row(fold: nat) -> Seq<E4> {
    Seq::new(pow2(fold), |i: int| e_zero())
}

/// The row that a query opens, as extension elements.
pub open spec fn query_row(src: SourceVal, fold: nat, leaves: Seq<LeafVal>, q: nat) -> Seq<E4> {
    match src {
        SourceVal::Single(_, base) => leaf_elements(leaves[q as int].rows[0], base),
        SourceVal::Stripes(roots, _, powers) => stripes_combined(
            zero_row(fold),
            powers,
            leaves,
            (q * roots.len()) as int,
            roots.len(),
        ),
    }
}

/// Combining rows keeps the length.
pub proof fn rows_combined_len(acc: Seq<E4>, rows: Seq<Seq<int>>, powers: Seq<E4>, k: nat)
    ensures
        rows_combined(acc, rows, powers, k).len() == acc.len(),
    decreases k,
{
    if k > 0 {
        rows_combined_len(acc, rows, powers, (k - 1) as nat);
    }
}

/// A refusal by the first trees is the verdict of the stack.
proof fn stripes_refusal_stays(
    roots: Seq<Seq<int>>,
    counts: Seq<nat>,
    fold: nat,
    log_height: nat,
    index: nat,
    leaves: Seq<LeafVal>,
    from: int,
    rows_word: Option<Seq<char>>,
    merkle_word: Seq<char>,
    j: nat,
    k: nat,
)
    requires
        j <= k,
        stripes_refusal(
            roots, counts, fold, log_height, index, leaves, from, rows_word, merkle_word, j,
        ) is Some,
    ensures
        stripes_refusal(
            roots, counts, fold, log_height, index, leaves, from, rows_word, merkle_word, k,
        ) == stripes_refusal(
            roots, counts, fold, log_height, index, leaves, from, rows_word, merkle_word, j,
        ),
    decreases k,
{
    if j < k {
        stripes_refusal_stays(
            roots, counts, fold, log_height, index, leaves, from, rows_word, merkle_word, j,
            (k - 1) as nat,
        );
    }
}

/// `n` copies of a width.
fn repeat_width(n: usize, width: usize) -> (r: Vec<usize>)
    ensures
        r@.len() == n,
        forall|i: int| 0 <= i < n ==> (#[trigger] r@[i]) == width,
        counts_val(r@) == widths(n as nat, width as nat),
{
    let mut r: Vec<usize> = Vec::new();
    let mut i: usize = 0;
    while i < n
        invariant
            i <= n,
            r@.len() == i,
            forall|j: int| 0 <= j < i ==> (#[trigger] r@[j]) == width,
        decreases n - i,
    {
        r.push(width);
        i = i + 1;
    }
    proof {
        assert(counts_val(r@) =~= widths(n as nat, width as nat));
    }
    r
}

/// Adds a base-field row, scaled by a power, to a row of extension elements.
fn add_scaled_row(acc: &mut Vec<Ext>, row: &Vec<Felt>, power: Ext)
    requires
        old(acc)@.len() == row@.len(),
    ensures
        evals(final(acc)@) == vadd(evals(old(acc)@), vscale(power@, lift(fvals(row@)))),
        final(acc)@.len() == old(acc)@.len(),
{
    let ghost before = acc@;
    let n: usize = acc.len();
    let mut i: usize = 0;
    while i < n
        invariant
            i <= n,
            acc@.len() == n,
            row@.len() == n,
            before.len() == n,
            forall|j: int| i <= j < n ==> #[trigger] acc@[j] == before[j],
            forall|j: int|
                0 <= j < i ==> (#[trigger] acc@[j])@ == before[j]@ + power@ * lift(fvals(row@))[j],
        decreases n - i,
    {
        let v = acc[i].plus(power.times(Ext::from_base(row[i])));
        acc.set(i, v);
        i = i + 1;
    }
    proof {
        assert(evals(acc@) =~= vadd(evals(before), vscale(power@, lift(fvals(row@)))));
    }
}

/// A row of `n` zeros.
pub fn zero_exts(n: usize) -> (r: Vec<Ext>)
    ensures
        r@.len() == n,
        forall|i: int| 0 <= i < n ==> (#[trigger] r@[i])@ == e_zero(),
{
    let mut r: Vec<Ext> = Vec::new();
    let mut i: usize = 0;
    while i < n
        invariant
            i <= n,
            r@.len() == i,
            forall|j: int| 0 <= j < i ==> (#[trigger] r@[j])@ == e_zero(),
        decreases n - i,
    {
        r.push(Ext::zero());
        i = i + 1;
    }
    r
}

/// Adds the rows of one opened leaf, each scaled by its power.
pub fn add_scaled_rows(acc: &mut Vec<Ext>, rows: &Vec<Vec<Felt>>, powers: &Vec<Ext>)
    requires
        rows@.len() <= powers@.len(),
        forall|i: int|
            0 <= i < rows@.len() ==> (#[trigger] rows@[i])@.len() == old(acc)@.len(),
    ensures
        evals(final(acc)@) == rows_combined(
            evals(old(acc)@),
            rows_val(rows@),
            evals(powers@),
            rows@.len(),
        ),
        final(acc)@.len() == old(acc)@.len(),
{
    let ghost start = evals(acc@);
    let ghost gr = rows_val(rows@);
    let ghost gp = evals(powers@);
    let mut i: usize = 0;
    while i < rows.len()
        invariant
            i <= rows@.len(),
            rows@.len() <= powers@.len(),
            acc@.len() == old(acc)@.len(),
            forall|j: int|
                0 <= j < rows@.len() ==> (#[trigger] rows@[j])@.len() == old(acc)@.len(),
            gr == rows_val(rows@),
            gp == evals(powers@),
            evals(acc@) == rows_combined(start, gr, gp, i as nat),
        decreases rows@.len() - i,
    {
        add_scaled_row(acc, &rows[i], powers[i]);
        i = i + 1;
    }
}

/// Opens one query of a stack: authenticates every tree's rows and combines them.
fn open_stripes(
    roots: &Vec<Digest>,
    counts: &Vec<usize>,
    powers: &Vec<Vec<Ext>>,
    fold: usize,
    log_height: usize,
    index: usize,
    leaves: &Vec<LeafOpening>,
    from: usize,
    rows_word: Option<&str>,
    merkle_word: &str,
) -> (r: Result<Vec<Ext>, WhirVerifierError>)
    requires
        counts@.len() == roots@.len(),
        powers@.len() == roots@.len(),
        forall|i: int| 0 <= i < roots@.len() ==> (#[trigger] powers@[i])@.len() == counts@[i],
        from + roots@.len() <= leaves@.len(),
        pow2(fold as nat) <= usize::MAX,
        log_height <= 30,
    ensures
        ({
            let why = stripes_refusal(
                path_val(roots@),
                counts_val(counts@),
                fold as nat,
                log_height as nat,
                index as nat,
                leaves_val(leaves@),
                from as int,
                word_val(rows_word),
                merkle_word@,
                roots@.len(),
            );
            match r {
                Ok(row) => {
                    &&& why is None
                    &&& row@.len() == pow2(fold as nat)
                    &&& evals(row@) == stripes_combined(
                        zero_row(fold as nat),
                        epoints(powers@),
                        leaves_val(leaves@),
                        from as int,
                        roots@.len(),
                    )
                },
                Err(e) => why == Some(e@),
            }
        }),
{
    let ghost gr = path_val(roots@);
    let ghost gc = counts_val(counts@);
    let ghost gp = epoints(powers@);
    let ghost gl = leaves_val(leaves@);
    proof {
        vstd::arithmetic::power2::lemma2_to64();
        crate::arith::pow2_le(log_height as nat, 30);
    }
    let width: usize = pow2_usize(fold);
    let height: usize = pow2_usize(log_height);
    let total: usize = leaves.len();
    let mut acc = zero_exts(width);
    let mut k: usize = 0;
    proof {
        assert(evals(acc@) =~= zero_row(fold as nat));
    }
    while k < roots.len()
        invariant
            k <= roots@.len(),
            counts@.len() == roots@.len(),
            powers@.len() == roots@.len(),
            forall|i: int| 0 <= i < roots@.len() ==> (#[trigger] powers@[i])@.len() == counts@[i],
            from + roots@.len() <= leaves@.len(),
            leaves@.len() == total,
            width == pow2(fold as nat),
            height == pow2(log_height as nat),
            height <= 0x40000000,
            gr == path_val(roots@),
            gc == counts_val(counts@),
            gp == epoints(powers@),
            gl == leaves_val(leaves@),
            acc@.len() == width,
            stripes_refusal(
                gr, gc, fold as nat, log_height as nat, index as nat, gl, from as int,
                word_val(rows_word), merkle_word@, k as nat,
            ) is None,
            evals(acc@) == stripes_combined(zero_row(fold as nat), gp, gl, from as int, k as nat),
        decreases roots@.len() - k,
    {
        let leaf = &leaves[from + k];
        let count: usize = counts[k];
        proof {
            assert(gl[from + k] == leaf_val(*leaf));
            assert(gl[from + k].rows.len() == leaf.values@.len());
            assert(gr[k as int] == fvals(roots@[k as int]@));
        }
        if let Some(word) = rows_word {
            if leaf.values.len() != count {
                proof {
                    stripes_refusal_stays(
                        gr, gc, fold as nat, log_height as nat, index as nat, gl, from as int,
                        word_val(rows_word), merkle_word@, (k + 1) as nat, roots@.len(),
                    );
                }
                return Err(shape_error(word));
            }
        }
        let ws = repeat_width(count, width);
        proof {
            assert(counts_val(ws@) =~= Seq::new(ws@.len(), |i: int| ws@[i] as nat));
        }
        let ok = merkle_verify(&roots[k], &ws, height, index, &leaf.values, &leaf.path);
        if !ok {
            proof {
                stripes_refusal_stays(
                    gr, gc, fold as nat, log_height as nat, index as nat, gl, from as int,
                    word_val(rows_word), merkle_word@, (k + 1) as nat, roots@.len(),
                );
            }
            return Err(shape_error(merkle_word));
        }
        add_scaled_rows(&mut acc, &leaf.values, &powers[k]);
        proof {
            assert(gp[k as int] == evals(powers@[k as int]@));
        }
        k = k + 1;
    }
    Ok(acc)
}

/// The text of an optional word.
pub open spec fn word_val(w: Option<&str>) -> Option<Seq<char>> {
    match w {
        Some(s) => Some(s@),
        None => None,
    }
}

/// Opens one query: authenticates its leaves and reads the row.
pub fn open_query(
    src: &Source,
    fold: usize,
    log_height: usize,
    index: usize,
    leaves: &Vec<LeafOpening>,
    q: usize,
    rows_word: Option<&str>,
    merkle_word: &str,
) -> (r: Result<Vec<Ext>, WhirVerifierError>)
    requires
        src@.consistent(),
        (q + 1) * src@.leaves_per_query() <= leaves@.len(),
        pow2(fold as nat) * 4 <= usize::MAX,
        log_height <= 30,
    ensures
        ({
            let why = query_refusal(
                src@,
                fold as nat,
                log_height as nat,
                index as nat,
                leaves_val(leaves@),
                q as nat,
                word_val(rows_word),
                merkle_word@,
            );
            match r {
                Ok(row) => {
                    &&& why is None
                    &&& row@.len() == pow2(fold as nat)
                    &&& evals(row@) == query_row(src@, fold as nat, leaves_val(leaves@), q as nat)
                },
                Err(e) => why == Some(e@),
            }
        }),
{
    match src {
        Source::Single(root, base) => {
            proof {
                vstd::arithmetic::power2::lemma2_to64();
                crate::arith::pow2_le(log_height as nat, 30);
            }
            let width: usize = pow2_usize(fold);
            let height: usize = pow2_usize(log_height);
            let leaf = &leaves[q];
            let full: usize = if *base {
                width
            } else {
                width * 4
            };
            let ws = repeat_width(1, full);
            proof {
                assert(counts_val(ws@) =~= Seq::new(ws@.len(), |i: int| ws@[i] as nat));
                assert(leaves_val(leaves@)[q as int] == leaf_val(*leaf));
            }
            let ok = merkle_verify(root, &ws, height, index, &leaf.values, &leaf.path);
            if !ok {
                return Err(shape_error(merkle_word));
            }
            let row = leaf_to_ef(&leaf.values[0], *base);
            proof {
                assert(rows_val(leaf.values@)[0] == fvals(leaf.values@[0]@));
                assert(row@.len() == evals(row@).len());
            }
            Ok(row)
        },
        Source::Stripes(roots, counts, powers) => {
            let total: usize = leaves.len();
            proof {
                assert(path_val(roots@).len() == roots@.len());
                assert((q + 1) * roots@.len() == q * roots@.len() + roots@.len())
                    by (nonlinear_arith);
                vstd::arithmetic::mul::lemma_mul_nonnegative(q as int, roots@.len() as int);
                assert forall|i: int| 0 <= i < roots@.len() implies (#[trigger] powers@[i])@.len()
                    == counts@[i] by {
                    assert(epoints(powers@)[i].len() == counts_val(counts@)[i]);
                }
            }
            open_stripes(
                roots,
                counts,
                powers,
                fold,
                log_height,
                index,
                leaves,
                q * roots.len(),
                rows_word,
                merkle_word,
            )
        },
    }
}

/// Leaf `i` of query `q`, where a query opens `per` leaves.
pub open spec fn leaf_at(leaves: Seq<LeafVal>, per: nat, q: nat, i: int) -> LeafVal {
    leaves[q * per + i]
}

/// Whether a leaf holds `count` rows of the given width.
pub open spec fn leaf_fits(leaf: LeafVal, count: nat, width: nat) -> bool {
    leaf.rows.len() == count && forall|k: int|
        0 <= k < leaf.rows.len() ==> (#[trigger] leaf.rows[k]).len() == width
}

/// Whether the leaves of query `q` hold rows of the widths that a source asks for.
pub open spec fn rows_fit(
    src: SourceVal,
    fold: nat,
    leaves: Seq<LeafVal>,
    q: nat,
) -> bool {
    match src {
        SourceVal::Single(_, base) => {
            let rows = leaves[q as int].rows;
            rows.len() > 0 && rows[0].len() == (if base {
                pow2(fold)
            } else {
                pow2(fold) * 4
            })
        },
        SourceVal::Stripes(roots, counts, _) => forall|i: int|
            0 <= i < roots.len() ==> leaf_fits(
                #[trigger] leaf_at(leaves, roots.len(), q, i),
                counts[i],
                pow2(fold),
            ),
    }
}

/// Reads the row of one query from its leaves.
pub fn read_query(
    src: &Source,
    fold: usize,
    leaves: &Vec<LeafOpening>,
    q: usize,
) -> (r: Vec<Ext>)
    requires
        src@.consistent(),
        (q + 1) * src@.leaves_per_query() <= leaves@.len(),
        pow2(fold as nat) * 4 <= usize::MAX,
        rows_fit(src@, fold as nat, leaves_val(leaves@), q as nat),
    ensures
        r@.len() == pow2(fold as nat),
        evals(r@) == query_row(src@, fold as nat, leaves_val(leaves@), q as nat),
{
    let ghost gl = leaves_val(leaves@);
    let total: usize = leaves.len();
    match src {
        Source::Single(_root, base) => {
            let leaf = &leaves[q];
            proof {
                assert(gl[q as int] == leaf_val(*leaf));
                assert(rows_val(leaf.values@).len() == leaf.values@.len());
                assert(rows_val(leaf.values@)[0] == fvals(leaf.values@[0]@));
                assert(fvals(leaf.values@[0]@).len() == leaf.values@[0]@.len());
            }
            let row = leaf_to_ef(&leaf.values[0], *base);
            proof {
                assert(row@.len() == evals(row@).len());
            }
            row
        },
        Source::Stripes(roots, counts, powers) => {
            let ghost nr = roots@.len();
            let ghost gp = epoints(powers@);
            proof {
                assert(path_val(roots@).len() == nr);
                assert((q + 1) * nr == q * nr + nr) by (nonlinear_arith);
                vstd::arithmetic::mul::lemma_mul_nonnegative(q as int, nr as int);
            }
            let from: usize = q * roots.len();
            let width: usize = pow2_usize(fold);
            let mut acc = zero_exts(width);
            let mut k: usize = 0;
            proof {
                assert(evals(acc@) =~= zero_row(fold as nat));
            }
            while k < roots.len()
                invariant
                    k <= roots@.len(),
                    nr == roots@.len(),
                    powers@.len() == nr,
                    counts@.len() == nr,
                    from == q * nr,
                    from + nr <= leaves@.len(),
                    leaves@.len() == total,
                    width == pow2(fold as nat),
                    acc@.len() == width,
                    gl == leaves_val(leaves@),
                    gp == epoints(powers@),
                    src@ == SourceVal::Stripes(path_val(roots@), counts_val(counts@), gp),
                    path_val(roots@).len() == nr,
                    src@.consistent(),
                    rows_fit(src@, fold as nat, gl, q as nat),
                    evals(acc@) == stripes_combined(
                        zero_row(fold as nat),
                        gp,
                        gl,
                        from as int,
                        k as nat,
                    ),
                decreases roots@.len() - k,
            {
                let leaf = &leaves[from + k];
                proof {
                    assert(gl[from + k] == leaf_val(*leaf));
                    assert(leaf_at(gl, nr, q as nat, k as int) == leaf_val(*leaf));
                    assert(gp[k as int] == evals(powers@[k as int]@));
                    assert(gp[k as int].len() == powers@[k as int]@.len());
                    assert(rows_val(leaf.values@).len() == leaf.values@.len());
                    assert forall|i: int| 0 <= i < leaf.values@.len() implies (
                    #[trigger] leaf.values@[i])@.len() == acc@.len() by {
                        assert(leaf_val(*leaf).rows[i] == fvals(leaf.values@[i]@));
                        assert(fvals(leaf.values@[i]@).len() == leaf.values@[i]@.len());
                    }
                }
                add_scaled_rows(&mut acc, &leaf.values, &powers[k]);
                k = k + 1;
            }
            acc
        },
    }
}

} // verus!
