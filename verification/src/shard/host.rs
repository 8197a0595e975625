//! What a verifier hands to the jagged opening: the columns with the coordinates that
//! address their rows, the opened columns to compare the claims with, and the commitments
//! that the verifying key pins.
use vstd::prelude::*;
use vstd::arithmetic::power2::{lemma_pow2_pos, pow2};
use vstd::string::StrSliceExecFns;
use crate::arith::pow2_usize;
use crate::ext::{e_zero, epoints, evals, fvals, Ext, E4};
use crate::jagged::bundle::{lists, EvaluationProof, JaggedBasefoldBundleGeneric};
use crate::jagged::claims::{opens, reduces, replays, OpeningClaim, ReductionClaim};
use crate::jagged::groups::{covered, inner_answer, partitions, parts_fit,
    verify_jagged_basefold_no_observe, weighs, BundleVal};
use crate::jagged::hash_bind::{bound_digest, jagged_hash_bind_modified, same_digest};
use crate::jagged::layout::{info_val, info_vals, InfoVal};
use crate::jagged::packing::{nats, row_coords, row_point, JaggedChipInfo, PackingMeta};
use crate::merkle::Digest;
use crate::multilinear::copy_exts;
use crate::shard::columns::{cells_monotone, cells_of, collect_columns, columns_fit,
    count_preprocessed, opened_columns, other_width_is_refused, paired_dims, prep_count};
use crate::shard::error::{answer_val, jagged_error, message1, text1, BasefoldVerifyError, ShardRefusal};
use crate::shard::types::{ChipOpenedValues, ShardChip};
use crate::text::join;
use crate::transcript::{Sponge, Transcript};
use crate::whir::config::WhirConfig;
use crate::whir::jagged::{next_multiple_of, round_up};

verus! {

/// Whether a name begins as those of padding columns do.
pub open spec fn is_pad_name(name: Seq<char>) -> bool {
    "<stacking-pad:"@.is_prefix_of(name)
}

fn begins_as_pad(name: &String) -> (r: bool)
    ensures
        r == is_pad_name(name@),
{
    let head = "<stacking-pad:";
    proof {
        reveal_strlit("<stacking-pad:");
    }
    let n: usize = name.as_str().unicode_len();
    let m: usize = head.unicode_len();
    if n < m {
        return false;
    }
    let mut i: usize = 0;
    while i < m
        invariant
            i <= m,
            m <= n,
            n == name@.len(),
            m == head@.len(),
            head@ == "<stacking-pad:"@,
            forall|j: int| 0 <= j < i ==> #[trigger] name@[j] == head@[j],
        decreases m - i,
    {
        if name.as_str().get_char(i) != head.get_char(i) {
            proof {
                assert(name@.subrange(0, m as int)[i as int] != head@[i as int]);
            }
            return false;
        }
        i = i + 1;
    }
    proof {
        assert(name@.subrange(0, m as int) =~= head@);
    }
    true
}

/// The index of the first chip of a name at or past `from`, or the number of chips where
/// there is none.
pub open spec fn chip_index(chips: Seq<ShardChip>, name: Seq<char>, from: nat) -> nat
    decreases chips.len() - from,
{
    if from >= chips.len() {
        chips.len()
    } else if chips[from as int].name@ == name {
        from
    } else {
        chip_index(chips, name, from + 1)
    }
}

pub fn find_chip(chips: &Vec<ShardChip>, name: &String) -> (r: Option<usize>)
    ensures
        match r {
            Some(i) => i < chips@.len() && i == chip_index(chips@, name@, 0),
            None => chip_index(chips@, name@, 0) == chips@.len(),
        },
{
    let mut i: usize = 0;
    while i < chips.len()
        invariant
            i <= chips@.len(),
            chip_index(chips@, name@, 0) == chip_index(chips@, name@, i as nat),
        decreases chips@.len() - i,
    {
        if chips[i].name == *name {
            return Some(i);
        }
        i = i + 1;
    }
    None
}

/// The opened columns of group `i` of the preprocessed commitment: a zero for a padding
/// column, else the preprocessed columns of the chip of its name.
pub open spec fn prep_opening(
    info: InfoVal,
    chips: Seq<ShardChip>,
    opened: Seq<ChipOpenedValues>,
) -> Result<Seq<E4>, Seq<char>> {
    if is_pad_name(info.name) {
        Ok(seq![e_zero()])
    } else {
        let c = chip_index(chips, info.name, 0);
        if c >= chips.len() {
            Err(
                ("preprocessed round covers chip "@ + info.name)
                    + " which the shard does not have"@,
            )
        } else {
            Ok(evals(opened[c as int].preprocessed@))
        }
    }
}

/// The opened columns of the first `k` groups of the preprocessed commitment, or why one
/// is refused.
pub open spec fn prep_openings(
    infos: Seq<InfoVal>,
    chips: Seq<ShardChip>,
    opened: Seq<ChipOpenedValues>,
    k: int,
) -> Result<Seq<Seq<E4>>, Seq<char>>
    decreases k,
{
    if k <= 0 {
        Ok(Seq::empty())
    } else {
        match prep_openings(infos, chips, opened, k - 1) {
            Err(e) => Err(e),
            Ok(s) => match prep_opening(infos[k - 1], chips, opened) {
                Err(e) => Err(e),
                Ok(v) => Ok(s.push(v)),
            },
        }
    }
}

proof fn prep_openings_stay(
    infos: Seq<InfoVal>,
    chips: Seq<ShardChip>,
    opened: Seq<ChipOpenedValues>,
    j: int,
    k: int,
)
    requires
        0 <= j <= k,
        prep_openings(infos, chips, opened, j) is Err,
    ensures
        prep_openings(infos, chips, opened, k) == prep_openings(infos, chips, opened, j),
    decreases k - j,
{
    if j < k {
        prep_openings_stay(infos, chips, opened, j, k - 1);
    }
}

/// A list of lists filled up with single zeros to a length.
pub open spec fn filled(s: Seq<Seq<E4>>, n: nat) -> Seq<Seq<E4>> {
    if s.len() >= n {
        s
    } else {
        s + Seq::new((n - s.len()) as nat, |i: int| seq![e_zero()])
    }
}

/// The opened columns of all groups: those of the preprocessed commitment, the main columns
/// of every chip, and a zero for each padding column that is left.
pub open spec fn all_openings(
    infos: Seq<InfoVal>,
    pinned: nat,
    chips: Seq<ShardChip>,
    opened: Seq<ChipOpenedValues>,
) -> Result<Seq<Seq<E4>>, Seq<char>> {
    match prep_openings(infos, chips, opened, pinned as int) {
        Err(e) => Err(e),
        Ok(prep) => Ok(
            filled(
                prep + Seq::new(opened.len(), |i: int| evals(opened[i].main@)),
                infos.len(),
            ),
        ),
    }
}

fn zero_list() -> (r: Vec<Ext>)
    ensures
        evals(r@) == seq![e_zero()],
{
    let mut r: Vec<Ext> = Vec::new();
    r.push(Ext::zero());
    proof {
        assert(evals(r@) =~= seq![e_zero()]);
    }
    r
}

proof fn epoints_push(s: Seq<Vec<Ext>>, v: Vec<Ext>)
    ensures
        epoints(s.push(v)) == epoints(s).push(evals(v@)),
{
    assert(epoints(s.push(v)) =~= epoints(s).push(evals(v@)));
}

fn collect_openings(
    infos: &Vec<JaggedChipInfo>,
    pinned: usize,
    chips: &Vec<ShardChip>,
    opened: &Vec<ChipOpenedValues>,
) -> (r: Result<Vec<Vec<Ext>>, BasefoldVerifyError>)
    requires
        pinned <= infos@.len(),
        opened@.len() == chips@.len(),
    ensures
        match (r, all_openings(info_vals(infos@), pinned as nat, chips@, opened@)) {
            (Ok(v), Ok(s)) => epoints(v@) == s,
            (Err(e), Err(w)) => e@ == ShardRefusal::JaggedPcs(w),
            _ => false,
        },
{
    let ghost iv = info_vals(infos@);
    let mut r: Vec<Vec<Ext>> = Vec::new();
    let mut i: usize = 0;
    proof {
        assert(epoints(r@) =~= Seq::<Seq<E4>>::empty());
    }
    while i < pinned
        invariant
            i <= pinned,
            pinned <= infos@.len(),
            opened@.len() == chips@.len(),
            iv == info_vals(infos@),
            prep_openings(iv, chips@, opened@, i as int) == Result::<Seq<Seq<E4>>, Seq<char>>::Ok(
                epoints(r@),
            ),
        decreases pinned - i,
    {
        let name = &infos[i].name;
        let ghost was = r@;
        proof {
            assert(iv[i as int] == info_val(infos@[i as int]));
        }
        if begins_as_pad(name) {
            r.push(zero_list());
        } else {
            match find_chip(chips, name) {
                None => {
                    proof {
                        prep_openings_stay(iv, chips@, opened@, i + 1, pinned as int);
                    }
                    let head = join(
                        "preprocessed round covers chip ".to_owned(),
                        name.as_str(),
                    );
                    return Err(
                        BasefoldVerifyError::JaggedPcs(
                            join(head, " which the shard does not have"),
                        ),
                    );
                },
                Some(at) => {
                    r.push(copy_exts(opened[at].preprocessed.as_slice()));
                },
            }
        }
        proof {
            epoints_push(was, r@.last());
            assert(r@ =~= was.push(r@.last()));
        }
        i = i + 1;
    }
    let ghost prep = epoints(r@);
    let ghost mains = Seq::new(opened@.len(), |i: int| evals(opened@[i].main@));
    let mut c: usize = 0;
    proof {
        assert(prep + mains.take(0) =~= prep);
    }
    while c < opened.len()
        invariant
            c <= opened@.len(),
            mains == Seq::new(opened@.len(), |i: int| evals(opened@[i].main@)),
            epoints(r@) == prep + mains.take(c as int),
        decreases opened@.len() - c,
    {
        let ghost was = r@;
        r.push(copy_exts(opened[c].main.as_slice()));
        proof {
            epoints_push(was, r@.last());
            assert(r@ =~= was.push(r@.last()));
            assert(mains.take(c + 1) =~= mains.take(c as int).push(mains[c as int]));
            assert(epoints(r@) =~= prep + mains.take(c + 1));
        }
        c = c + 1;
    }
    let ghost both = prep + mains;
    proof {
        assert(mains.take(c as int) =~= mains);
        assert(epoints(r@).len() == r@.len());
        assert(filled(both, r@.len()) =~= both);
    }
    while r.len() < infos.len()
        invariant
            both.len() <= r@.len(),
            r@.len() == both.len() || r@.len() <= infos@.len(),
            epoints(r@) == filled(both, r@.len()),
        decreases infos@.len() - r@.len(),
    {
        let ghost was = r@;
        r.push(zero_list());
        proof {
            epoints_push(was, r@.last());
            assert(r@ =~= was.push(r@.last()));
            assert(epoints(r@) =~= filled(both, r@.len()));
        }
    }
    Ok(r)
}

/// The heights of the first `k` groups.
pub open spec fn row_counts(infos: Seq<InfoVal>, k: nat) -> Seq<nat> {
    Seq::new(k, |i: int| infos[i].row_count)
}

/// The numbers of columns of the first `k` groups.
pub open spec fn col_counts(infos: Seq<InfoVal>, k: nat) -> Seq<nat> {
    Seq::new(k, |i: int| infos[i].column_count)
}

/// The smaller of two numbers.
pub open spec fn at_most(a: nat, b: nat) -> nat {
    if a < b {
        a
    } else {
        b
    }
}

/// The commitments that the verifying key pins, with the cells that they cover, or why they
/// are refused: the claimed root and the layout must give the key's digest.
pub open spec fn pinned_rounds(
    infos: Seq<InfoVal>,
    pinned: nat,
    n_prep: nat,
    commits: Seq<Digest>,
    key: Seq<int>,
    lsh: nat,
) -> Result<Seq<(Seq<int>, nat)>, Seq<char>> {
    let k = at_most(n_prep, infos.len());
    if pinned == 0 {
        Ok(Seq::empty())
    } else if commits.len() == 0 {
        Err("preprocessed round: the proof carries no raw commitment for it"@)
    } else if bound_digest(fvals(commits[0]@), row_counts(infos, k), col_counts(infos, k)) != key {
        Err(
            "preprocessed round: the claimed commitment and geometry do not re-derive the verifying key's commitment"@,
        )
    } else {
        Ok(
            seq![
                (fvals(commits[0]@), round_up(cells_of(infos, pinned as int), pow2(lsh))),
            ],
        )
    }
}

/// The contents of commitments with the cells that they cover.
pub open spec fn rounds_val(s: Seq<(Digest, usize)>) -> Seq<(Seq<int>, nat)> {
    Seq::new(s.len(), |i: int| (fvals(s[i].0@), s[i].1 as nat))
}

fn pin_rounds(
    infos: &Vec<JaggedChipInfo>,
    pinned: usize,
    n_prep: usize,
    commits: &Vec<Digest>,
    key: &Digest,
    log_stacking_height: u32,
) -> (r: Result<Vec<(Digest, usize)>, BasefoldVerifyError>)
    requires
        pinned <= infos@.len(),
        pow2(log_stacking_height as nat) <= usize::MAX,
        round_up(
            cells_of(info_vals(infos@), pinned as int),
            pow2(log_stacking_height as nat),
        ) <= usize::MAX,
    ensures
        match (
            r,
            pinned_rounds(
                info_vals(infos@),
                pinned as nat,
                n_prep as nat,
                commits@,
                fvals(key@),
                log_stacking_height as nat,
            ),
        ) {
            (Ok(v), Ok(s)) => rounds_val(v@) == s,
            (Err(e), Err(w)) => e@ == ShardRefusal::JaggedPcs(w),
            _ => false,
        },
{
    let ghost iv = info_vals(infos@);
    let mut out: Vec<(Digest, usize)> = Vec::new();
    if pinned == 0 {
        proof {
            assert(rounds_val(out@) =~= Seq::<(Seq<int>, nat)>::empty());
        }
        return Ok(out);
    }
    let height: usize = pow2_usize(log_stacking_height as usize);
    proof {
        lemma_pow2_pos(log_stacking_height as nat);
        crate::whir::jagged::round_up_bounds(
            cells_of(iv, pinned as int),
            pow2(log_stacking_height as nat),
        );
    }
    let mut cells: usize = 0;
    let mut i: usize = 0;
    while i < pinned
        invariant
            i <= pinned,
            pinned <= infos@.len(),
            iv == info_vals(infos@),
            cells_of(iv, pinned as int) <= usize::MAX,
            cells == cells_of(iv, i as int),
        decreases pinned - i,
    {
        proof {
            cells_monotone(iv, i + 1, pinned as int);
            assert(iv[i as int] == info_val(infos@[i as int]));
            assert(infos@[i as int].row_count * infos@[i as int].column_count
                == iv[i as int].row_count * iv[i as int].column_count);
            assert(0 <= cells_of(iv, i as int));
        }
        cells = cells + infos[i].row_count * infos[i].column_count;
        i = i + 1;
    }
    if commits.len() == 0 {
        return Err(
            jagged_error("preprocessed round: the proof carries no raw commitment for it"),
        );
    }
    let k: usize = if n_prep < infos.len() {
        n_prep
    } else {
        infos.len()
    };
    let mut rows: Vec<usize> = Vec::new();
    let mut cols: Vec<usize> = Vec::new();
    let mut j: usize = 0;
    while j < k
        invariant
            j <= k,
            k <= infos@.len(),
            rows@.len() == j,
            cols@.len() == j,
            forall|x: int| 0 <= x < j ==> #[trigger] rows@[x] == infos@[x].row_count,
            forall|x: int| 0 <= x < j ==> #[trigger] cols@[x] == infos@[x].column_count,
        decreases k - j,
    {
        rows.push(infos[j].row_count);
        cols.push(infos[j].column_count);
        j = j + 1;
    }
    proof {
        assert(nats(rows@) =~= row_counts(iv, k as nat));
        assert(nats(cols@) =~= col_counts(iv, k as nat));
    }
    let raw = commits[0];
    let rebound = jagged_hash_bind_modified(raw, rows.as_slice(), cols.as_slice());
    if !same_digest(key, &rebound) {
        return Err(
            jagged_error(
                "preprocessed round: the claimed commitment and geometry do not re-derive the verifying key's commitment",
            ),
        );
    }
    let area: usize = next_multiple_of(cells, height);
    out.push((raw, area));
    proof {
        assert(rounds_val(out@) =~= seq![(fvals(raw@), area as nat)]);
    }
    Ok(out)
}

/// What a verifier hands to the jagged opening.
#[derive(Debug)]
pub struct JaggedInputs {
    /// The groups of columns.
    pub chip_infos: Vec<JaggedChipInfo>,
    /// The number of groups of the preprocessed commitment, padding columns included.
    pub n_prep: usize,
    /// The coordinates that address the rows of each group.
    pub r_row_per_chip: Vec<Vec<Ext>>,
    /// The opened columns of each group.
    pub opened_main: Vec<Vec<Ext>>,
    /// The commitments that the verifying key pins, with the cells that they cover.
    pub preceding_rounds: Vec<(Digest, usize)>,
}

/// The content of what a verifier hands to the jagged opening.
pub struct InputsVal {
    pub infos: Seq<InfoVal>,
    pub pinned: nat,
    pub rows: Seq<Seq<E4>>,
    pub opened: Seq<Seq<E4>>,
    pub preceding: Seq<(Seq<int>, nat)>,
}

impl View for JaggedInputs {
    type V = InputsVal;

    open spec fn view(&self) -> InputsVal {
        InputsVal {
            infos: info_vals(self.chip_infos@),
            pinned: self.n_prep as nat,
            rows: epoints(self.r_row_per_chip@),
            opened: epoints(self.opened_main@),
            preceding: rounds_val(self.preceding_rounds@),
        }
    }
}

/// What a verifier hands to the jagged opening, or why the proof is refused: the columns,
/// the opened columns, then the commitments that the verifying key pins.
pub open spec fn jagged_inputs(
    chips: Seq<ShardChip>,
    dims: Seq<(String, usize)>,
    packing: PackingMeta,
    lsh: nat,
    point: Seq<E4>,
    opened: Seq<ChipOpenedValues>,
    commits: Seq<Digest>,
    key: Seq<int>,
) -> Result<InputsVal, Seq<char>> {
    match opened_columns(chips, dims, packing, lsh, pow2(point.len())) {
        Err(e) => Err(e),
        Ok((infos, pinned)) => match all_openings(infos, pinned, chips, opened) {
            Err(e) => Err(e),
            Ok(lists) => match pinned_rounds(
                infos,
                pinned,
                prep_count(chips, chips.len() as int),
                commits,
                key,
                lsh,
            ) {
                Err(e) => Err(e),
                Ok(preceding) => Ok(
                    InputsVal {
                        infos,
                        pinned,
                        rows: Seq::new(
                            infos.len(),
                            |i: int| row_point(point, infos[i].row_count),
                        ),
                        opened: lists,
                        preceding,
                    },
                ),
            },
        },
    }
}

/// Whether the cells of the preprocessed commitment are machine numbers.
pub open spec fn pinned_cells_fit(
    chips: Seq<ShardChip>,
    dims: Seq<(String, usize)>,
    packing: PackingMeta,
    lsh: nat,
    cube: nat,
) -> bool {
    match opened_columns(chips, dims, packing, lsh, cube) {
        Err(_) => true,
        Ok((infos, pinned)) => {
            &&& pinned <= infos.len()
            &&& round_up(cells_of(infos, pinned as int), pow2(lsh)) <= usize::MAX
        },
    }
}

fn rows_of(infos: &Vec<JaggedChipInfo>, point: &[Ext]) -> (r: Vec<Vec<Ext>>)
    ensures
        epoints(r@) == Seq::new(
            infos@.len(),
            |i: int| row_point(evals(point@), infos@[i].row_count as nat),
        ),
{
    let mut r: Vec<Vec<Ext>> = Vec::new();
    let mut i: usize = 0;
    while i < infos.len()
        invariant
            i <= infos@.len(),
            r@.len() == i,
            forall|j: int|
                0 <= j < i ==> evals((#[trigger] r@[j])@) == row_point(
                    evals(point@),
                    infos@[j].row_count as nat,
                ),
        decreases infos@.len() - i,
    {
        r.push(row_coords(point, infos[i].row_count));
        i = i + 1;
    }
    proof {
        assert(epoints(r@) =~= Seq::new(
            infos@.len(),
            |i: int| row_point(evals(point@), infos@[i].row_count as nat),
        ));
    }
    r
}

/// Builds what a verifier hands to the jagged opening, or says why the proof is refused.
pub fn build_jagged_inputs(
    chips: &Vec<ShardChip>,
    prep_chip_dims: &Vec<(String, usize)>,
    shared_eval_point: &[Ext],
    packing: &PackingMeta,
    log_stacking_height: u32,
    opened_values: &Vec<ChipOpenedValues>,
    preceding_commits: &Vec<Digest>,
    key_commitment: &Digest,
) -> (r: Result<JaggedInputs, BasefoldVerifyError>)
    requires
        pow2(log_stacking_height as nat) <= usize::MAX,
        pow2(shared_eval_point@.len()) <= usize::MAX,
        opened_values@.len() == chips@.len(),
        columns_fit(
            chips@,
            prep_chip_dims@,
            *packing,
            log_stacking_height as nat,
            pow2(shared_eval_point@.len()),
        ),
        pinned_cells_fit(
            chips@,
            prep_chip_dims@,
            *packing,
            log_stacking_height as nat,
            pow2(shared_eval_point@.len()),
        ),
    ensures
        match (
            r,
            jagged_inputs(
                chips@,
                prep_chip_dims@,
                *packing,
                log_stacking_height as nat,
                evals(shared_eval_point@),
                opened_values@,
                preceding_commits@,
                fvals(key_commitment@),
            ),
        ) {
            (Ok(v), Ok(s)) => v@ == s,
            (Err(e), Err(w)) => e@ == ShardRefusal::JaggedPcs(w),
            _ => false,
        },
{
    proof {
        assert(evals(shared_eval_point@).len() == shared_eval_point@.len());
    }
    let (chip_infos, n_prep) = match collect_columns(
        chips,
        prep_chip_dims,
        packing,
        log_stacking_height,
        shared_eval_point.len(),
    ) {
        Err(e) => {
            return Err(e);
        },
        Ok(v) => v,
    };
    let ghost iv = info_vals(chip_infos@);
    proof {
        assert(iv.len() == chip_infos@.len());
    }
    let opened_main = match collect_openings(&chip_infos, n_prep, chips, opened_values) {
        Err(e) => {
            return Err(e);
        },
        Ok(v) => v,
    };
    let machine: usize = count_preprocessed(chips);
    let preceding_rounds = match pin_rounds(
        &chip_infos,
        n_prep,
        machine,
        preceding_commits,
        key_commitment,
        log_stacking_height,
    ) {
        Err(e) => {
            return Err(e);
        },
        Ok(v) => v,
    };
    let r_row_per_chip = rows_of(&chip_infos, shared_eval_point);
    proof {
        assert(epoints(r_row_per_chip@) =~= Seq::new(
            iv.len(),
            |i: int| row_point(evals(shared_eval_point@), iv[i].row_count),
        ));
    }
    Ok(JaggedInputs { chip_infos, n_prep, r_row_per_chip, opened_main, preceding_rounds })
}

/// The bundle that an opening stands for, none where there is no opening, or why it cannot
/// be read.
pub open spec fn resolved<R, E, B>(e: EvaluationProof<R, E, B>) -> Result<
    Option<JaggedBasefoldBundleGeneric<R, E, B>>,
    Seq<char>,
> {
    match e {
        EvaluationProof::Empty => Ok(None),
        EvaluationProof::Bytes { len, decoded } => match decoded {
            None => Err(text1("rmp-serde deserialize failed ("@, len as nat, " bytes)"@)),
            Some(b) => Ok(Some(b)),
        },
        EvaluationProof::Bundle(b) => Ok(Some(b)),
    }
}

/// What the jagged opening gets for a bundle, or why the bundle is refused.
pub open spec fn bundle_inputs<R, E, B>(
    key: Seq<int>,
    chips: Seq<ShardChip>,
    dims: Seq<(String, usize)>,
    point: Seq<E4>,
    b: JaggedBasefoldBundleGeneric<R, E, B>,
    opened: Seq<ChipOpenedValues>,
) -> Result<InputsVal, Seq<char>> {
    jagged_inputs(
        chips,
        dims,
        b.packing,
        b.commit.log_stacking_height as nat,
        point,
        opened,
        b.preceding_commits@,
        key,
    )
}

/// Whether a bundle may be answered so for the columns that the verifier built.
pub open spec fn inputs_answer<
    R,
    E,
    B,
    P: Fn(&Vec<JaggedChipInfo>) -> Vec<Vec<usize>>,
    W: Fn(&Vec<Ext>) -> Vec<Ext>,
    F: Fn(&R, &ReductionClaim, Transcript) -> (Option<(Vec<Ext>, Ext)>, Transcript),
    L: Fn(&E, Transcript) -> Transcript,
    O: Fn(&OpeningClaim, &B, Transcript) -> (bool, Transcript),
>(
    b: JaggedBasefoldBundleGeneric<R, E, B>,
    v: InputsVal,
    point: Seq<E4>,
    config: WhirConfig,
    partition: P,
    weights: W,
    reduce: F,
    replay: L,
    open_other: O,
    s: Sponge,
    ok: bool,
    end: Sponge,
) -> bool {
    exists|preceding: Seq<(Digest, usize)>|
        {
            &&& #[trigger] rounds_val(preceding) == v.preceding
            &&& inner_answer(
                b,
                config,
                (BundleVal {
                    infos: v.infos,
                    rows: v.rows,
                    z_row: point,
                    opened: Some(v.opened),
                    preceding,
                }),
                partition,
                weights,
                reduce,
                replay,
                open_other,
                s,
                false,
                ok,
                end,
            )
        }
}

/// Whether the verification of an opening may end so: an opening that cannot be read, or
/// whose columns are not the verifier's, is refused; where there is none, there is nothing
/// to verify; else the bundle is verified for the columns that the verifier built.
pub open spec fn pcs_answer<
    R,
    E,
    B,
    P: Fn(&Vec<JaggedChipInfo>) -> Vec<Vec<usize>>,
    W: Fn(&Vec<Ext>) -> Vec<Ext>,
    F: Fn(&R, &ReductionClaim, Transcript) -> (Option<(Vec<Ext>, Ext)>, Transcript),
    L: Fn(&E, Transcript) -> Transcript,
    O: Fn(&OpeningClaim, &B, Transcript) -> (bool, Transcript),
>(
    key: Seq<int>,
    chips: Seq<ShardChip>,
    dims: Seq<(String, usize)>,
    point: Seq<E4>,
    e: EvaluationProof<R, E, B>,
    opened: Seq<ChipOpenedValues>,
    config: WhirConfig,
    partition: P,
    weights: W,
    reduce: F,
    replay: L,
    open_other: O,
    s: Sponge,
    r: Result<(), ShardRefusal>,
    end: Sponge,
) -> bool {
    match resolved(e) {
        Err(m) => r == Result::<(), ShardRefusal>::Err(ShardRefusal::JaggedPcs(m)),
        Ok(None) => r is Ok && end == s,
        Ok(Some(b)) => match bundle_inputs(key, chips, dims, point, b, opened) {
            Err(m) => r == Result::<(), ShardRefusal>::Err(ShardRefusal::JaggedPcs(m)),
            Ok(v) => {
                &&& inputs_answer(
                    b,
                    v,
                    point,
                    config,
                    partition,
                    weights,
                    reduce,
                    replay,
                    open_other,
                    s,
                    r is Ok,
                    end,
                )
                &&& r is Err ==> r == Result::<(), ShardRefusal>::Err(
                    ShardRefusal::JaggedPcs(
                        "verify_jagged_basefold_no_observe rejected the bundle"@,
                    ),
                )
            },
        },
    }
}

/// Whether the numbers of an opening are machine numbers and its parts are there, as far as
/// the opening is looked at.
pub open spec fn pcs_fits<R, E, B, P: Fn(&Vec<JaggedChipInfo>) -> Vec<Vec<usize>>>(
    key: Seq<int>,
    chips: Seq<ShardChip>,
    dims: Seq<(String, usize)>,
    point: Seq<E4>,
    e: EvaluationProof<R, E, B>,
    opened: Seq<ChipOpenedValues>,
    config: WhirConfig,
    partition: P,
) -> bool {
    match resolved(e) {
        Ok(Some(b)) => {
            let lsh = b.commit.log_stacking_height as nat;
            &&& pow2(lsh) <= usize::MAX
            &&& pow2(point.len()) <= usize::MAX
            &&& columns_fit(chips, dims, b.packing, lsh, pow2(point.len()))
            &&& pinned_cells_fit(chips, dims, b.packing, lsh, pow2(point.len()))
            &&& match bundle_inputs(key, chips, dims, point, b, opened) {
                Err(_) => true,
                Ok(v) => {
                    &&& b.extra_reduction@.len() < usize::MAX
                    &&& groups_fit(b, v, config, partition)
                },
            }
        },
        _ => true,
    }
}

/// Whether a bundle that names the partition of the columns has its parts for every group.
pub open spec fn groups_fit<R, E, B, P: Fn(&Vec<JaggedChipInfo>) -> Vec<Vec<usize>>>(
    b: JaggedBasefoldBundleGeneric<R, E, B>,
    v: InputsVal,
    config: WhirConfig,
    partition: P,
) -> bool {
    forall|
        infos: &Vec<JaggedChipInfo>,
        groups: Vec<Vec<usize>>,
        preceding: Seq<(Digest, usize)>,
    |
        info_vals(infos@) == v.infos && #[trigger] rounds_val(preceding) == v.preceding
            && #[trigger] partition.ensures((infos,), groups) && covered(
            b,
            lists(groups@),
            v.infos.len(),
        ) ==> parts_fit(b, v.infos.len(), preceding, config)
}

proof fn opened_for_all(
    chips: Seq<ShardChip>,
    dims: Seq<(String, usize)>,
    packing: PackingMeta,
    lsh: nat,
    point: Seq<E4>,
    opened: Seq<ChipOpenedValues>,
    commits: Seq<Digest>,
    key: Seq<int>,
)
    ensures
        jagged_inputs(chips, dims, packing, lsh, point, opened, commits, key) matches Ok(v) ==> {
            &&& v.rows.len() == v.infos.len()
            &&& v.opened.len() >= v.infos.len()
        },
{
}

/// Verifies the opening of a shard: the columns are those that the machine, the verifying
/// key and the layout give; `partition` names the groups that they open in, `weights` the
/// weights of the columns at a column point; `reduce` checks a group's reduction, `replay` runs
/// the transcript through the evaluation of its layout, and `open_other` checks an opening
/// under the other scheme. The transcript has absorbed the roots.
pub fn verify_jagged_pcs_host<R, E, B, P, W, F, L, O>(
    key_commitment: &Digest,
    chips: &Vec<ShardChip>,
    prep_chip_dims: &Vec<(String, usize)>,
    shared_eval_point: &[Ext],
    evaluation_proof: &EvaluationProof<R, E, B>,
    opened_values: &Vec<ChipOpenedValues>,
    config: WhirConfig,
    challenger: &mut Transcript,
    partition: P,
    weights: W,
    reduce: F,
    replay: L,
    open_other: O,
) -> (r: Result<(), BasefoldVerifyError>) where
    P: Fn(&Vec<JaggedChipInfo>) -> Vec<Vec<usize>>,
    W: Copy + Fn(&Vec<Ext>) -> Vec<Ext>,
    F: Copy + Fn(&R, &ReductionClaim, Transcript) -> (Option<(Vec<Ext>, Ext)>, Transcript),
    L: Copy + Fn(&E, Transcript) -> Transcript,
    O: Copy + Fn(&OpeningClaim, &B, Transcript) -> (bool, Transcript),

    requires
        old(challenger).wf(),
        opened_values@.len() == chips@.len(),
        pcs_fits(
            fvals(key_commitment@),
            chips@,
            prep_chip_dims@,
            evals(shared_eval_point@),
            *evaluation_proof,
            opened_values@,
            config,
            partition,
        ),
        partitions(partition),
        weighs(weights),
        reduces(reduce),
        replays(replay),
        opens(open_other),
    ensures
        final(challenger).wf(),
        pcs_answer(
            fvals(key_commitment@),
            chips@,
            prep_chip_dims@,
            evals(shared_eval_point@),
            *evaluation_proof,
            opened_values@,
            config,
            partition,
            weights,
            reduce,
            replay,
            open_other,
            old(challenger)@,
            answer_val(r),
            final(challenger)@,
        ),
{
    let ghost s = challenger@;
    let ghost schedule = config;
    let bundle = match evaluation_proof {
        EvaluationProof::Empty => {
            return Ok(());
        },
        EvaluationProof::Bytes { len, decoded } => match decoded {
            None => {
                return Err(
                    BasefoldVerifyError::JaggedPcs(
                        message1("rmp-serde deserialize failed (", *len, " bytes)"),
                    ),
                );
            },
            Some(b) => b,
        },
        EvaluationProof::Bundle(b) => b,
    };
    proof {
        assert(resolved(*evaluation_proof) == Result::<
            Option<JaggedBasefoldBundleGeneric<R, E, B>>,
            Seq<char>,
        >::Ok(Some(*bundle)));
        assert(evals(shared_eval_point@).len() == shared_eval_point@.len());
        opened_for_all(
            chips@,
            prep_chip_dims@,
            bundle.packing,
            bundle.commit.log_stacking_height as nat,
            evals(shared_eval_point@),
            opened_values@,
            bundle.preceding_commits@,
            fvals(key_commitment@),
        );
    }
    let inputs = match build_jagged_inputs(
        chips,
        prep_chip_dims,
        shared_eval_point,
        &bundle.packing,
        bundle.commit.log_stacking_height,
        opened_values,
        &bundle.preceding_commits,
        key_commitment,
    ) {
        Err(e) => {
            return Err(e);
        },
        Ok(v) => v,
    };
    let ghost v = inputs@;
    let ghost preceding = inputs.preceding_rounds@;
    let opened = Some(inputs.opened_main);
    proof {
        assert(v.infos.len() == inputs.chip_infos@.len());
        assert(v.rows.len() == inputs.r_row_per_chip@.len());
        assert(v.opened.len() == inputs.opened_main@.len());
        assert(rounds_val(preceding) == v.preceding);
        assert forall|groups: Vec<Vec<usize>>| #[trigger]
            partition.ensures((&inputs.chip_infos,), groups) && covered(
                *bundle,
                lists(groups@),
                inputs.chip_infos@.len(),
            ) implies parts_fit(
            *bundle,
            inputs.chip_infos@.len(),
            preceding,
            schedule,
        ) by {
            assert(rounds_val(preceding) == v.preceding);
        }
    }
    let ok = verify_jagged_basefold_no_observe(
        &inputs.chip_infos,
        &inputs.r_row_per_chip,
        shared_eval_point,
        &inputs.preceding_rounds,
        bundle,
        &opened,
        config,
        challenger,
        partition,
        weights,
        reduce,
        replay,
        open_other,
    );
    proof {
        assert(rounds_val(preceding) == v.preceding);
        assert(inputs_answer(
            *bundle,
            v,
            evals(shared_eval_point@),
            schedule,
            partition,
            weights,
            reduce,
            replay,
            open_other,
            s,
            ok,
            challenger@,
        ));
    }
    if ok {
        Ok(())
    } else {
        Err(jagged_error("verify_jagged_basefold_no_observe rejected the bundle"))
    }
}

/// A proof whose preprocessed columns are not the machine's is refused: one without them,
/// with those of another number of chips, or with a chip of another width.
pub proof fn other_preprocessed_columns_are_refused<
    R,
    E,
    B,
    P: Fn(&Vec<JaggedChipInfo>) -> Vec<Vec<usize>>,
    W: Fn(&Vec<Ext>) -> Vec<Ext>,
    F: Fn(&R, &ReductionClaim, Transcript) -> (Option<(Vec<Ext>, Ext)>, Transcript),
    L: Fn(&E, Transcript) -> Transcript,
    O: Fn(&OpeningClaim, &B, Transcript) -> (bool, Transcript),
>(
    key: Seq<int>,
    chips: Seq<ShardChip>,
    dims: Seq<(String, usize)>,
    point: Seq<E4>,
    b: JaggedBasefoldBundleGeneric<R, E, B>,
    opened: Seq<ChipOpenedValues>,
    config: WhirConfig,
    partition: P,
    weights: W,
    reduce: F,
    replay: L,
    open_other: O,
    s: Sponge,
    r: Result<(), ShardRefusal>,
    end: Sponge,
)
    requires
        pcs_answer(
            key,
            chips,
            dims,
            point,
            EvaluationProof::Bundle(b),
            opened,
            config,
            partition,
            weights,
            reduce,
            replay,
            open_other,
            s,
            r,
            end,
        ),
        ({
            let n = prep_count(chips, chips.len() as int);
            let rounds = b.packing.round_counts@;
            &&& n > 0
            &&& rounds.len() == 0 || rounds[0]@.len() != n || exists|i: int|
                0 <= i < dims.len() && i < rounds[0]@.len() && (#[trigger] rounds[0]@[i]).1
                    != dims[i].1
        }),
    ensures
        r is Err,
        r->Err_0 is JaggedPcs,
{
    let n = prep_count(chips, chips.len() as int);
    let rounds = b.packing.round_counts@;
    if rounds.len() > 0 && rounds[0]@.len() == n {
        let i = choose|i: int|
            0 <= i < dims.len() && i < rounds[0]@.len() && (#[trigger] rounds[0]@[i]).1
                != dims[i].1;
        let k = paired_dims(dims.len(), rounds[0]@.len()) as int;
        other_width_is_refused(dims, rounds[0]@, i, k);
    }
}

/// A chip is found at the first place that has its name; where none has, past the last chip.
pub proof fn chip_index_is_first(chips: Seq<ShardChip>, name: Seq<char>, from: nat)
    requires
        from <= chips.len(),
    ensures
        from <= chip_index(chips, name, from) <= chips.len(),
        chip_index(chips, name, from) < chips.len() ==> chips[chip_index(
            chips,
            name,
            from,
        ) as int].name@ == name,
        forall|j: int|
            from <= j < chip_index(chips, name, from) ==> (#[trigger] chips[j]).name@ != name,
    decreases chips.len() - from,
{
    if from < chips.len() && chips[from as int].name@ != name {
        chip_index_is_first(chips, name, from + 1);
    }
}

} // verus!
