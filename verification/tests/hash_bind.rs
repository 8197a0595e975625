//! Layouts and the digest that binds them.
use zkm_pcs::felt::Felt;
use zkm_pcs::jagged::hash_bind::{
    check_hash_bind, jagged_geometry_hash, jagged_hash_bind_from_packing,
    jagged_hash_bind_modified, jagged_hash_bind_verify,
};
use zkm_pcs::jagged::packing::{jagged_counts_from_packing, PackingMeta};
use zkm_pcs::merkle::Digest;

fn packing() -> PackingMeta {
    PackingMeta {
        offsets: vec![0, 3, 6, 11, 13, 15, 17],
        total_values: 17,
        log_dense_size: 5,
        column_counts: vec![2, 1, 3, 0],
        round_counts: Vec::new(),
        padding_heights: Vec::new(),
    }
}

fn root() -> Digest {
    core::array::from_fn(|i| Felt::new((i as u32 + 1) * 7))
}

#[test]
fn g_host_hash_bind_roundtrip() {
    let column_counts: Vec<usize> = vec![2, 1, 3, 0];
    let packing_meta = packing();
    let (row_counts, col_counts) = jagged_counts_from_packing(&packing_meta);
    assert_eq!(col_counts, column_counts);
    assert_eq!(row_counts, vec![3usize, 5, 2, 0], "row_counts derivation");
    let raw_root = root();
    let hash = jagged_geometry_hash(&row_counts, &col_counts);
    let modified = jagged_hash_bind_modified(raw_root, &row_counts, &col_counts);
    let modified_from_packing = jagged_hash_bind_from_packing(raw_root, &packing_meta);
    assert_eq!(modified, modified_from_packing, "from_packing must match explicit");
    assert!(jagged_hash_bind_verify(raw_root, modified, &packing_meta));
    {
        let mut bad = packing();
        bad.offsets[1] = 4;
        assert!(!jagged_hash_bind_verify(raw_root, modified, &bad));
    }
    {
        let mut bad = packing();
        bad.column_counts[0] = 3;
        assert!(!jagged_hash_bind_verify(raw_root, modified, &bad));
    }
    {
        let mut rc2 = row_counts.clone();
        let mut cc2 = col_counts.clone();
        rc2.push(0);
        cc2.push(0);
        let h2 = jagged_geometry_hash(&rc2, &cc2);
        assert_ne!(hash, h2);
    }
}

#[test]
fn hash_bind_guards_counts_and_area() {
    let (rows, cols) = (vec![3usize, 5], vec![2usize, 1]);
    let bound = jagged_hash_bind_modified(root(), &rows, &cols);
    assert!(check_hash_bind(root(), &bound, &rows, &cols).is_ok());
    let text = |rows: Vec<usize>, cols: Vec<usize>| {
        check_hash_bind(root(), &bound, &rows, &cols).unwrap_err().message()
    };
    assert_eq!(
        text(vec![2130706433], vec![1]),
        "jagged-PCS: jagged hash-bind: count >= F::ORDER (BaseFieldOverflow)"
    );
    let area = "jagged-PCS: jagged hash-bind: area out of bounds (0 < area < 2^30) (AreaOutOfBounds)";
    assert_eq!(text(vec![0], vec![4]), area);
    assert_eq!(text(vec![1 << 15], vec![1 << 15]), area);
    assert!(text(vec![3, 6], vec![2, 1]).contains("IncorrectTableSizes"));
}
