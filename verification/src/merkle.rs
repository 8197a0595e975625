//! Matrix commitments: a Poseidon2 Merkle tree over the rows of equally tall
//! matrices, by `p3_merkle_tree::MerkleTreeMmcs`.
use vstd::prelude::*;
use p3_commit::{BatchOpeningRef, Mmcs};
use p3_field::{Field, PrimeCharacteristicRing, PrimeField32};
use p3_koala_bear::{default_koalabear_poseidon2_16, KoalaBear, Poseidon2KoalaBear};
use p3_matrix::dense::RowMajorMatrix;
use p3_matrix::Dimensions;
use p3_merkle_tree::{MerkleTree, MerkleTreeMmcs};
use p3_symmetric::{
    CryptographicHasher, MerkleCap, PaddingFreeSponge, PseudoCompressionFunction,
    TruncatedPermutation,
};
use crate::ext::fvals;
use crate::felt::Felt;

verus! {

/// Eight field elements: a hash, or the root of a tree.
pub type Digest = [Felt; 8];

type InnerHash = PaddingFreeSponge<Poseidon2KoalaBear<16>, 16, 8, 8>;

type InnerCompress = TruncatedPermutation<Poseidon2KoalaBear<16>, 2, 8, 16>;

type InnerMmcs = MerkleTreeMmcs<
    <KoalaBear as Field>::Packing,
    <KoalaBear as Field>::Packing,
    InnerHash,
    InnerCompress,
    2,
    8,
>;

/// A matrix of field elements, row by row.
#[derive(Debug)]
pub struct Matrix {
    /// The entries.
    pub values: Vec<Felt>,
    /// The number of columns.
    pub width: usize,
}

/// The entries of a matrix, and its number of columns.
pub open spec fn matrix_val(m: Matrix) -> (Seq<int>, nat) {
    (fvals(m.values@), m.width as nat)
}

/// The entries and widths of several matrices.
pub open spec fn matrices_val(ms: Seq<Matrix>) -> Seq<(Seq<int>, nat)> {
    Seq::new(ms.len(), |i: int| matrix_val(ms[i]))
}

/// Row `i` of a matrix.
pub open spec fn matrix_row(m: (Seq<int>, nat), i: int) -> Seq<int> {
    m.0.subrange(i * m.1, (i + 1) * m.1)
}

/// Whether every matrix has `height` rows, at least one, and at least one column.
pub open spec fn uniform(ms: Seq<(Seq<int>, nat)>, height: nat) -> bool {
    &&& ms.len() > 0
    &&& height > 0
    &&& forall|k: int|
        0 <= k < ms.len() ==> (#[trigger] ms[k]).1 > 0 && ms[k].0.len() == height * ms[k].1
}

/// The widths of several matrices.
pub open spec fn widths_of(ms: Seq<(Seq<int>, nat)>) -> Seq<nat> {
    Seq::new(ms.len(), |k: int| ms[k].1)
}

/// The digests of an authentication path.
pub open spec fn path_val(path: Seq<Digest>) -> Seq<Seq<int>> {
    Seq::new(path.len(), |i: int| fvals(path[i]@))
}

/// The entries of several rows.
pub open spec fn rows_val(rows: Seq<Vec<Felt>>) -> Seq<Seq<int>> {
    Seq::new(rows.len(), |i: int| fvals(rows[i]@))
}

/// The root that `MerkleTreeMmcs::commit` gives for several matrices, each by its
/// entries and its width.
pub uninterp spec fn merkle_root(matrices: Seq<(Seq<int>, nat)>) -> Seq<int>;

/// The authentication path that `MerkleTreeMmcs::open_batch` gives for a row index
/// of a tree over several matrices.
pub uninterp spec fn merkle_path(matrices: Seq<(Seq<int>, nat)>, index: nat) -> Seq<Seq<int>>;

/// Whether `MerkleTreeMmcs::verify_batch` accepts rows and path against a root, for
/// matrices of the given widths and common height.
pub uninterp spec fn merkle_accepts(
    root: Seq<int>,
    widths: Seq<nat>,
    height: nat,
    index: nat,
    rows: Seq<Seq<int>>,
    path: Seq<Seq<int>>,
) -> bool;

/// The matrices that a tree was built over.
pub uninterp spec fn committed_matrices(tree: CommittedRows) -> Seq<(Seq<int>, nat)>;

/// A Merkle tree over the rows of committed matrices.
#[verifier::external_body]
pub struct CommittedRows {
    tree: MerkleTree<KoalaBear, KoalaBear, RowMajorMatrix<KoalaBear>, 2, 8>,
}

/// `MerkleTreeMmcs::commit` with a cap of one root. The claims are that the root is
/// a function of the matrices, and that the tree holds exactly those matrices.
/// The permutation is `default_koalabear_poseidon2_16`, with the round constants of
/// `p3_koala_bear`: roots of a permutation with other constants are not the same.
#[verifier::external_body]
pub(crate) fn merkle_commit(matrices: &Vec<Matrix>, height: usize) -> (r: (Digest, CommittedRows))
    requires
        uniform(matrices_val(matrices@), height as nat),
    ensures
        fvals(r.0@) == merkle_root(matrices_val(matrices@)),
        committed_matrices(r.1) == matrices_val(matrices@),
{
    let perm = default_koalabear_poseidon2_16();
    let mmcs = InnerMmcs::new(InnerHash::new(perm.clone()), InnerCompress::new(perm), 0);
    let kb = |f: &Felt| KoalaBear::from_u32(f.value());
    let mat = |m: &Matrix| RowMajorMatrix::new(m.values.iter().map(kb).collect(), m.width);
    let (cap, tree) = mmcs.commit(matrices.iter().map(mat).collect());
    (cap[0].map(|k| Felt::new(k.as_canonical_u32())), CommittedRows { tree })
}

/// `MerkleTreeMmcs::open_batch`. The claims are that the opened rows are those of
/// the committed matrices, that the path is a function of the matrices and the
/// index, and that `verify_batch` accepts both against the root of the tree. The
/// permutation is that of the commitment.
#[verifier::external_body]
pub(crate) fn merkle_open(tree: &CommittedRows, index: usize, height: usize) -> (r: (
    Vec<Vec<Felt>>,
    Vec<Digest>,
))
    requires
        uniform(committed_matrices(*tree), height as nat),
        index < height,
    ensures
        rows_val(r.0@) == Seq::new(
            committed_matrices(*tree).len(),
            |k: int| matrix_row(committed_matrices(*tree)[k], index as int),
        ),
        path_val(r.1@) == merkle_path(committed_matrices(*tree), index as nat),
        merkle_accepts(
            merkle_root(committed_matrices(*tree)),
            widths_of(committed_matrices(*tree)),
            height as nat,
            index as nat,
            rows_val(r.0@),
            path_val(r.1@),
        ),
{
    let perm = default_koalabear_poseidon2_16();
    let mmcs = InnerMmcs::new(InnerHash::new(perm.clone()), InnerCompress::new(perm), 0);
    let back = |k: &KoalaBear| Felt::new(k.as_canonical_u32());
    let (rows, path) = mmcs.open_batch(index, &tree.tree).unpack();
    (
        rows.iter().map(|row| row.iter().map(back).collect()).collect(),
        path.iter().map(|d| d.each_ref().map(back)).collect(),
    )
}

/// `MerkleTreeMmcs::verify_batch` against a cap of one root. The claims are that
/// the answer is a function of the arguments, and that rows are accepted only where
/// there is one for each width, of exactly that width. The permutation is that of the
/// commitment.
#[verifier::external_body]
pub(crate) fn merkle_verify(
    root: &Digest,
    widths: &Vec<usize>,
    height: usize,
    index: usize,
    rows: &Vec<Vec<Felt>>,
    path: &Vec<Digest>,
) -> (r: bool)
    requires
        height <= 0x40000000,
    ensures
        r == merkle_accepts(
            fvals(root@),
            Seq::new(widths@.len(), |k: int| widths@[k] as nat),
            height as nat,
            index as nat,
            rows_val(rows@),
            path_val(path@),
        ),
        r ==> rows@.len() == widths@.len() && forall|k: int|
            0 <= k < rows@.len() ==> (#[trigger] rows@[k])@.len() == widths@[k],
{
    let perm = default_koalabear_poseidon2_16;
    let mmcs = InnerMmcs::new(InnerHash::new(perm()), InnerCompress::new(perm()), 0);
    let kb = |f: Felt| KoalaBear::from_u32(f.value());
    let dims: Vec<_> = widths.iter().map(|&width| Dimensions { width, height }).collect();
    let opened: Vec<_> = rows.iter().map(|r| r.iter().copied().map(kb).collect()).collect();
    let siblings = path.iter().map(|d| d.map(kb)).collect();
    let cap = MerkleCap::new(vec![root.map(kb)]);
    mmcs.verify_batch(&cap, &dims, index, BatchOpeningRef::new(&opened, &siblings)).is_ok()
}

/// The digest that `PaddingFreeSponge::hash_iter` gives for a sequence of residues.
pub uninterp spec fn poseidon2_hash(input: Seq<int>) -> Seq<int>;

/// `p3_symmetric::PaddingFreeSponge::hash_iter` over the Poseidon2 permutation of
/// width sixteen, with rate and output of eight. The claim is that the digest is a
/// function of the input.
/// The permutation is `default_koalabear_poseidon2_16`, with the round constants of
/// `p3_koala_bear`: digests of a permutation with other constants are not the same.
#[verifier::external_body]
pub(crate) fn hash_felts(input: &Vec<Felt>) -> (r: Digest)
    ensures
        fvals(r@) == poseidon2_hash(fvals(input@)),
{
    let hasher = InnerHash::new(default_koalabear_poseidon2_16());
    let digest = hasher.hash_iter(input.iter().map(|f| KoalaBear::from_u32(f.value())));
    digest.map(|k: KoalaBear| Felt::new(k.as_canonical_u32()))
}

/// The digest that `TruncatedPermutation::compress` gives for two digests.
pub uninterp spec fn poseidon2_compress(left: Seq<int>, right: Seq<int>) -> Seq<int>;

/// `p3_symmetric::TruncatedPermutation::compress` over the Poseidon2 permutation of
/// width sixteen. The claim is that the digest is a function of the two inputs.
/// The permutation is `default_koalabear_poseidon2_16`, with the round constants of
/// `p3_koala_bear`: digests of a permutation with other constants are not the same.
#[verifier::external_body]
pub(crate) fn compress_digests(left: &Digest, right: &Digest) -> (r: Digest)
    ensures
        fvals(r@) == poseidon2_compress(fvals(left@), fvals(right@)),
{
    let compressor = InnerCompress::new(default_koalabear_poseidon2_16());
    let kb = |f: &Felt| KoalaBear::from_u32(f.value());
    let digest = compressor.compress([left.each_ref().map(kb), right.each_ref().map(kb)]);
    digest.map(|k: KoalaBear| Felt::new(k.as_canonical_u32()))
}

} // verus!
