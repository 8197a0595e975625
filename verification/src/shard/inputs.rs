//! What a verifier hands to the opening of a shard.
use vstd::prelude::*;
use vstd::arithmetic::power2::{lemma_pow2_pos, pow2};
use crate::ext::{e_zero, evals, fvals, Ext, E4};
use crate::jagged::bundle::{EvaluationProof, JaggedBasefoldBundleGeneric};
use crate::jagged::claims::{OpeningClaim, ReductionClaim};
use crate::jagged::groups::{inner_answer, BundleVal};
use crate::jagged::hash_bind::geometry_felts;
use crate::jagged::layout::InfoVal;
use crate::jagged::layout::{pad_heights, pad_name};
use crate::jagged::packing::{column_height, row_point, JaggedChipInfo, PackingMeta};
use crate::merkle::{poseidon2_compress, poseidon2_hash, Digest};
use crate::shard::columns::{cells_of, height_refusal, info_cols, laid_infos, main_infos, opened_columns,
    pad_infos, paired_dims, prep_columns, prep_count, prep_infos, width_refusal, with_tail};
use crate::shard::host::{chip_index, is_pad_name, jagged_inputs, pcs_answer, prep_openings,
    InputsVal};
use crate::shard::types::{ChipOpenedValues, ShardChip};
use crate::transcript::{Sponge, Transcript};
use crate::whir::config::WhirConfig;
use crate::whir::jagged::{round_up, round_up_bounds};

verus! {

/// The number of cells of the first `k` groups.
pub open spec fn cells_before(infos: Seq<InfoVal>, k: nat) -> int
    decreases k,
{
    if k == 0 {
        0
    } else {
        cells_before(infos, (k - 1) as nat) + infos[k - 1].row_count * infos[k - 1].column_count
    }
}

proof fn cells_agree(infos: Seq<InfoVal>, k: nat)
    ensures
        cells_of(infos, k as int) == cells_before(infos, k),
    decreases k,
{
    if k > 0 {
        cells_agree(infos, (k - 1) as nat);
    }
}

/// The number of columns of the first `k` groups.
pub open spec fn columns_up_to(infos: Seq<InfoVal>, k: nat) -> nat
    decreases k,
{
    if k == 0 {
        0
    } else {
        columns_up_to(infos, (k - 1) as nat) + infos[k - 1].column_count
    }
}

proof fn columns_agree(a: Seq<InfoVal>, b: Seq<InfoVal>, k: nat)
    requires
        k <= a.len(),
        k <= b.len(),
        forall|i: int|
            0 <= i < k ==> (#[trigger] a[i]).column_count == b[i].column_count,
    ensures
        info_cols(a, k as int) == columns_up_to(b, k),
    decreases k,
{
    if k > 0 {
        columns_agree(a, b, (k - 1) as nat);
        assert(a[k - 1].column_count == b[k - 1].column_count);
    }
}

proof fn pads_follow(infos: Seq<InfoVal>, heights: Seq<nat>)
    ensures
        pad_infos(infos, heights).len() == infos.len() + heights.len(),
        forall|i: int|
            0 <= i < infos.len() ==> #[trigger] pad_infos(infos, heights)[i] == infos[i],
    decreases heights.len(),
{
    if heights.len() > 0 {
        let more = infos.push(
            InfoVal { name: pad_name(infos.len()), row_count: heights[0], column_count: 1 },
        );
        pads_follow(more, heights.skip(1));
        assert forall|i: int| 0 <= i < infos.len() implies #[trigger] pad_infos(infos, heights)[i]
            == infos[i] by {
            assert(more[i] == infos[i]);
        }
    }
}

proof fn tail_follows(infos: Seq<InfoVal>, packing: PackingMeta, from: nat, to: nat)
    requires
        from <= to,
    ensures
        ({
            let all = with_tail(infos, packing, from, to);
            &&& all.len() == infos.len() + (to - from)
            &&& forall|i: int| 0 <= i < infos.len() ==> #[trigger] all[i] == infos[i]
            &&& forall|i: int|
                infos.len() <= i < all.len() ==> (#[trigger] all[i]).column_count == 1
                    && all[i].row_count == column_height(
                    packing.offsets@,
                    packing.total_values as nat,
                    (from + (i - infos.len())) as nat,
                )
        }),
    decreases to - from,
{
    if from < to {
        let more = infos.push(
            InfoVal {
                name: pad_name(infos.len()),
                row_count: column_height(packing.offsets@, packing.total_values as nat, from),
                column_count: 1,
            },
        );
        tail_follows(more, packing, from + 1, to);
        let all = with_tail(infos, packing, from, to);
        assert forall|i: int| 0 <= i < infos.len() implies #[trigger] all[i] == infos[i] by {
            assert(more[i] == infos[i]);
        }
        assert(all[infos.len() as int] == more[infos.len() as int]);
    }
}

proof fn ones_count(infos: Seq<InfoVal>, from: nat, k: nat)
    requires
        from <= k <= infos.len(),
        forall|i: int| from <= i < infos.len() ==> (#[trigger] infos[i]).column_count == 1,
    ensures
        columns_up_to(infos, k) == columns_up_to(infos, from) + (k - from),
    decreases k,
{
    if k > from {
        ones_count(infos, from, (k - 1) as nat);
        assert(infos[k - 1].column_count == 1);
    }
}

proof fn heights_accepted(infos: Seq<InfoVal>, packing: PackingMeta, pinned: nat, i: int, k: int)
    requires
        0 <= i < k,
        height_refusal(infos, packing, pinned, k) is None,
        i < pinned,
        infos[i].column_count > 0,
    ensures
        infos[i].row_count == column_height(
            packing.offsets@,
            packing.total_values as nat,
            info_cols(infos, i),
        ),
    decreases k,
{
    if i < k - 1 {
        heights_accepted(infos, packing, pinned, i, k - 1);
    }
}

proof fn widths_accepted(dims: Seq<(String, usize)>, claimed: Seq<(usize, usize)>, i: int, k: int)
    requires
        0 <= i < k,
        width_refusal(dims, claimed, k) is None,
    ensures
        claimed[i].1 == dims[i].1,
    decreases k,
{
    if i < k - 1 {
        widths_accepted(dims, claimed, i, k - 1);
    }
}

/// What accepted columns say: where some chip has preprocessed columns, the proof claims a
/// height and a width for each such chip, the widths are the machine's, and the groups begin
/// with them; after the groups of the preprocessed commitment come the chips of the shard, in
/// turn; every group with columns has the height that the layout gives its first column; and
/// the groups have as many columns as the layout.
pub proof fn accepted_columns_are_the_machines(
    chips: Seq<ShardChip>,
    dims: Seq<(String, usize)>,
    packing: PackingMeta,
    lsh: nat,
    cube: nat,
    infos: Seq<InfoVal>,
    pinned: nat,
)
    requires
        opened_columns(chips, dims, packing, lsh, cube) == Ok::<(Seq<InfoVal>, nat), Seq<char>>(
            (infos, pinned),
        ),
        packing.offsets@.len() > 0,
    ensures
        ({
            let n = prep_count(chips, chips.len() as int);
            let claimed = packing.round_counts@[0]@;
            &&& n == 0 ==> pinned == 0
            &&& n > 0 ==> {
                &&& packing.round_counts@.len() > 0
                &&& claimed.len() == n
                &&& forall|i: int|
                    0 <= i < n && i < dims.len() ==> {
                        &&& i < pinned
                        &&& (#[trigger] infos[i]).name == dims[i].0@
                        &&& infos[i].row_count == claimed[i].0
                        &&& infos[i].column_count == dims[i].1
                        &&& claimed[i].1 == dims[i].1
                    }
            }
            &&& infos.len() >= pinned + chips.len()
            &&& forall|i: int|
                0 <= i < chips.len() ==> infos[pinned + i].name == (#[trigger] chips[i]).name@
            &&& forall|i: int|
                0 <= i < chips.len() ==> infos[pinned + i].column_count == (if pinned + i
                    < packing.column_counts@.len() {
                    packing.column_counts@[pinned + i] as nat
                } else {
                    (#[trigger] chips[i]).width as nat
                })
            &&& forall|i: int|
                0 <= i < infos.len() && (#[trigger] infos[i]).column_count > 0
                    ==> infos[i].row_count == column_height(
                    packing.offsets@,
                    packing.total_values as nat,
                    columns_up_to(infos, i as nat),
                )
            &&& columns_up_to(infos, infos.len()) + 1 == packing.offsets@.len()
        }),
{
    let n = prep_count(chips, chips.len() as int);
    let prep = prep_columns(chips, dims, packing, lsh, cube)->Ok_0;
    let main = main_infos(chips, packing.column_counts@, prep.len(), chips.len() as int);
    let given = prep + main;
    let g = given.len();
    let cols = info_cols(given, g as int);
    let total = (packing.offsets@.len() - 1) as nat;
    let laid = laid_infos(given, packing, prep.len());
    tail_follows(laid, packing, cols, total);
    if n > 0 {
        let claimed = packing.round_counts@[0]@;
        let k = paired_dims(dims.len(), claimed.len()) as int;
        let first = prep_infos(dims, claimed, k);
        let cells = cells_of(first, k);
        let hs = pad_heights((round_up(cells, pow2(lsh)) - cells) as nat, cube);
        pads_follow(first, hs);
        assert forall|i: int| 0 <= i < n && i < dims.len() implies {
            &&& i < pinned
            &&& (#[trigger] infos[i]).name == dims[i].0@
            &&& infos[i].row_count == claimed[i].0
            &&& infos[i].column_count == dims[i].1
            &&& claimed[i].1 == dims[i].1
        } by {
            widths_accepted(dims, claimed, i, k);
            assert(prep[i] == first[i]);
            assert(given[i] == first[i]);
            assert(infos[i] == laid[i]);
        }
    }
    assert forall|i: int| 0 <= i < g implies (#[trigger] given[i]).column_count
        == infos[i].column_count by {
        assert(infos[i] == laid[i]);
    }
    columns_agree(given, infos, g);
    ones_count(infos, g, infos.len());
    assert forall|i: int| 0 <= i < infos.len() && (#[trigger] infos[i]).column_count > 0 implies
        infos[i].row_count == column_height(
        packing.offsets@,
        packing.total_values as nat,
        columns_up_to(infos, i as nat),
    ) by {
        if i < g {
            assert(infos[i] == laid[i]);
            columns_agree(given, infos, i as nat);
            if i < pinned {
                heights_accepted(given, packing, prep.len(), i, g as int);
            }
        } else {
            ones_count(infos, g, i as nat);
        }
    }
    assert forall|i: int| 0 <= i < chips.len() implies infos[pinned + i].name == (
    #[trigger] chips[i]).name@ && infos[pinned + i].column_count == main[i].column_count by {
        assert(given[prep.len() + i] == main[i]);
        assert(infos[pinned + i] == laid[pinned + i]);
    }
}

/// Whether `c` is the first chip of a name.
pub open spec fn is_first_named(chips: Seq<ShardChip>, name: Seq<char>, c: int) -> bool {
    &&& 0 <= c < chips.len()
    &&& chips[c].name@ == name
    &&& forall|d: int| 0 <= d < c ==> (#[trigger] chips[d]).name@ != name
}

proof fn index_is_first(chips: Seq<ShardChip>, name: Seq<char>, from: nat)
    requires
        from <= chips.len(),
        forall|d: int| 0 <= d < from ==> (#[trigger] chips[d]).name@ != name,
    ensures
        chip_index(chips, name, from) < chips.len() ==> is_first_named(
            chips,
            name,
            chip_index(chips, name, from) as int,
        ),
    decreases chips.len() - from,
{
    if from < chips.len() && chips[from as int].name@ != name {
        index_is_first(chips, name, from + 1);
    }
}

/// Whether `list` are the opened columns of a preprocessed group: a zero for a padding column,
/// else the preprocessed columns of the first chip of its name.
pub open spec fn is_prep_list(
    info: InfoVal,
    chips: Seq<ShardChip>,
    opened: Seq<ChipOpenedValues>,
    list: Seq<E4>,
) -> bool {
    if is_pad_name(info.name) {
        list == seq![e_zero()]
    } else {
        exists|c: int| #[trigger]
            is_first_named(chips, info.name, c) && list == evals(opened[c].preprocessed@)
    }
}

proof fn prep_lists(
    infos: Seq<InfoVal>,
    chips: Seq<ShardChip>,
    opened: Seq<ChipOpenedValues>,
    k: nat,
)
    requires
        prep_openings(infos, chips, opened, k as int) is Ok,
    ensures
        ({
            let s = prep_openings(infos, chips, opened, k as int)->Ok_0;
            &&& s.len() == k
            &&& forall|i: int| 0 <= i < k ==> is_prep_list(infos[i], chips, opened, #[trigger] s[i])
        }),
    decreases k,
{
    if k > 0 {
        let n = (k - 1) as nat;
        prep_lists(infos, chips, opened, n);
        let before = prep_openings(infos, chips, opened, n as int)->Ok_0;
        let s = prep_openings(infos, chips, opened, k as int)->Ok_0;
        let info = infos[n as int];
        index_is_first(chips, info.name, 0);
        if !is_pad_name(info.name) {
            assert(is_first_named(chips, info.name, chip_index(chips, info.name, 0) as int));
        }
        assert forall|i: int| 0 <= i < k implies is_prep_list(
            infos[i],
            chips,
            opened,
            #[trigger] s[i],
        ) by {
            if i < n {
                assert(s[i] == before[i]);
            }
        }
    }
}

/// What a verifier hands to the opening: the columns that the machine, the key and the layout
/// give; for each group the coordinates that address its rows; as opened columns, for the
/// groups of the preprocessed commitment the preprocessed columns of the chip of the group's
/// name, then the main columns of every chip, and a zero for each padding column; and as the
/// commitment before, where there are preprocessed columns, the root that the proof claims,
/// which with the layout gives the key's digest, and the least number of whole stripes that
/// hold its cells.
pub proof fn inputs_are_the_verifiers_own(
    chips: Seq<ShardChip>,
    dims: Seq<(String, usize)>,
    packing: PackingMeta,
    lsh: nat,
    point: Seq<E4>,
    opened: Seq<ChipOpenedValues>,
    commits: Seq<Digest>,
    key: Seq<int>,
    v: InputsVal,
)
    requires
        jagged_inputs(chips, dims, packing, lsh, point, opened, commits, key) == Ok::<
            InputsVal,
            Seq<char>,
        >(v),
    ensures
        opened_columns(chips, dims, packing, lsh, pow2(point.len())) == Ok::<
            (Seq<InfoVal>, nat),
            Seq<char>,
        >((v.infos, v.pinned)),
        v.rows.len() == v.infos.len(),
        forall|i: int|
            0 <= i < v.infos.len() ==> #[trigger] v.rows[i] == row_point(
                point,
                v.infos[i].row_count,
            ),
        v.opened.len() >= v.pinned + opened.len(),
        v.opened.len() >= v.infos.len(),
        forall|i: int|
            0 <= i < v.pinned ==> is_prep_list(v.infos[i], chips, opened, #[trigger] v.opened[i]),
        forall|i: int|
            0 <= i < opened.len() ==> v.opened[v.pinned + i] == evals(
                (#[trigger] opened[i]).main@,
            ),
        forall|i: int|
            v.pinned + opened.len() <= i < v.opened.len() ==> #[trigger] v.opened[i] == seq![
                e_zero(),
            ],
        v.pinned == 0 ==> v.preceding.len() == 0,
        v.pinned > 0 ==> {
            let n = crate::shard::columns::prep_count(chips, chips.len() as int);
            let k = if n < v.infos.len() {
                n
            } else {
                v.infos.len()
            };
            let area = v.preceding[0].1;
            &&& v.preceding.len() == 1
            &&& commits.len() > 0
            &&& v.preceding[0].0 == fvals(commits[0]@)
            &&& key == poseidon2_compress(
                fvals(commits[0]@),
                poseidon2_hash(
                    geometry_felts(
                        Seq::new(k, |i: int| v.infos[i].row_count),
                        Seq::new(k, |i: int| v.infos[i].column_count),
                    ),
                ),
            )
            &&& cells_before(v.infos, v.pinned) <= area < cells_before(v.infos, v.pinned) + pow2(lsh)
            &&& area % pow2(lsh) == 0
        },
{
    let (infos, pinned) = opened_columns(chips, dims, packing, lsh, pow2(point.len()))->Ok_0;
    prep_lists(infos, chips, opened, pinned);
    let prep = prep_openings(infos, chips, opened, pinned as int)->Ok_0;
    assert forall|i: int| 0 <= i < v.pinned implies is_prep_list(
        v.infos[i],
        chips,
        opened,
        #[trigger] v.opened[i],
    ) by {
        assert(v.opened[i] == prep[i]);
    }
    cells_agree(infos, pinned);
    lemma_pow2_pos(lsh);
    round_up_bounds(cells_of(infos, pinned as int), pow2(lsh));
    let n = crate::shard::columns::prep_count(chips, chips.len() as int);
    let k = if n < v.infos.len() {
        n
    } else {
        v.infos.len()
    };
    assert(crate::shard::host::row_counts(infos, k) =~= Seq::new(
        k,
        |i: int| v.infos[i].row_count,
    ));
    assert(crate::shard::host::col_counts(infos, k) =~= Seq::new(
        k,
        |i: int| v.infos[i].column_count,
    ));
}

/// What an accepted opening of a shard has passed: there is none, or it could be read and is
/// accepted for the columns that the verifier built, with the opened columns bound to its
/// claims, on the transcript that has absorbed the roots.
pub proof fn accepted_opening_has_passed<
    R,
    E,
    B,
    P: Fn(&Vec<JaggedChipInfo>) -> Vec<Vec<usize>>,
    W: Fn(&Vec<Ext>) -> Vec<Ext>,
    F: Fn(&R, &ReductionClaim, Transcript) -> (Option<(Vec<Ext>, Ext)>, Transcript),
    L: Fn(&E, Transcript) -> Transcript,
    O: Fn(&OpeningClaim, &B, Transcript) -> (bool, Transcript),
>(
    key: Seq<int>,
    chips: Seq<ShardChip>,
    dims: Seq<(String, usize)>,
    point: Seq<E4>,
    e: EvaluationProof<R, E, B>,
    opened: Seq<ChipOpenedValues>,
    config: WhirConfig,
    partition: P,
    weights: W,
    reduce: F,
    replay: L,
    open_other: O,
    s: Sponge,
    end: Sponge,
) -> (r: Option<(JaggedBasefoldBundleGeneric<R, E, B>, InputsVal, Seq<(Digest, usize)>)>)
    requires
        pcs_answer(
            key,
            chips,
            dims,
            point,
            e,
            opened,
            config,
            partition,
            weights,
            reduce,
            replay,
            open_other,
            s,
            Ok(()),
            end,
        ),
    ensures
        match r {
            None => e is Empty && end == s,
            Some((b, v, preceding)) => {
                &&& match e {
                    EvaluationProof::Empty => false,
                    EvaluationProof::Bytes { decoded, .. } => decoded == Some(b),
                    EvaluationProof::Bundle(x) => x == b,
                }
                &&& jagged_inputs(
                    chips,
                    dims,
                    b.packing,
                    b.commit.log_stacking_height as nat,
                    point,
                    opened,
                    b.preceding_commits@,
                    key,
                ) == Ok::<InputsVal, Seq<char>>(v)
                &&& preceding.len() == v.preceding.len()
                &&& forall|i: int|
                    0 <= i < preceding.len() ==> fvals((#[trigger] preceding[i]).0@)
                        == v.preceding[i].0 && preceding[i].1 == v.preceding[i].1
                &&& inner_answer(
                    b,
                    config,
                    (BundleVal {
                        infos: v.infos,
                        rows: v.rows,
                        z_row: point,
                        opened: Some(v.opened),
                        preceding,
                    }),
                    partition,
                    weights,
                    reduce,
                    replay,
                    open_other,
                    s,
                    false,
                    true,
                    end,
                )
            },
        },
{
    match crate::shard::host::resolved(e) {
        Ok(Some(b)) => {
            let v = crate::shard::host::bundle_inputs(key, chips, dims, point, b, opened)->Ok_0;
            let preceding = choose|preceding: Seq<(Digest, usize)>|
                {
                    &&& #[trigger] crate::shard::host::rounds_val(preceding) == v.preceding
                    &&& inner_answer(
                        b,
                        config,
                        (BundleVal {
                            infos: v.infos,
                            rows: v.rows,
                            z_row: point,
                            opened: Some(v.opened),
                            preceding,
                        }),
                        partition,
                        weights,
                        reduce,
                        replay,
                        open_other,
                        s,
                        false,
                        true,
                        end,
                    )
                };
            let val = crate::shard::host::rounds_val(preceding);
            assert forall|i: int| 0 <= i < preceding.len() implies fvals(
                (#[trigger] preceding[i]).0@,
            ) == v.preceding[i].0 && preceding[i].1 == v.preceding[i].1 by {
                assert(val[i] == v.preceding[i]);
            }
            Some((b, v, preceding))
        },
        _ => None,
    }
}

} // verus!
