use regionomics::table::merge_rows;

#[test]
fn test_array_merge() {
    let a = vec!["A".to_string(), "B".to_string()];
    let b = vec!["C".to_string(), "D".to_string()];
    assert_eq!(merge_rows(&a, &b), "A\tB\tC\tD", "Arrays do not integrate as expected?!");
}
