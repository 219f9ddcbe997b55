use regionomics::parse_value;
use regionomics::parse_delimited_file;
use regionomics::table::{file_basename, merge_tables, na_fields, render_lines, TableError};

#[test]
fn parse_value_classifies_numbers_and_names() {
    assert_eq!(parse_value("12"), Ok(12));
    assert_eq!(parse_value("007"), Ok(7));
    assert_eq!(parse_value("gene"), Err("gene"));
    assert_eq!(parse_value(""), Err(""));
    assert_eq!(parse_value("99999999999999999999999999"), Err("99999999999999999999999999"));
}

#[test]
fn parse_value_takes_the_machine_word_boundary() {
    assert_eq!(parse_value("18446744073709551615"), Ok(usize::MAX));
    assert_eq!(parse_value("18446744073709551616"), Err("18446744073709551616"));
}

#[test]
fn rendering_no_lines_gives_no_text() {
    assert_eq!(render_lines(&Vec::new()), "");
}

#[test]
fn delimited_parse_splits_rows_and_fields() {
    let rows = parse_delimited_file("a,b\nc,d,e\n", ',');
    assert_eq!(rows, vec![vec!["a".to_string(), "b".to_string()], vec![
        "c".to_string(),
        "d".to_string(),
        "e".to_string(),
    ]]);
    let empty = parse_delimited_file("", '\t');
    assert!(empty.is_empty());
}

fn table(rows: &[&[&str]]) -> Vec<Vec<String>> {
    rows.iter().map(|r| r.iter().map(|s| s.to_string()).collect()).collect()
}

#[test]
fn join_matches_a_key() {
    let primary = table(&[&["region", "gene", "val"], &["chr1:1-2", "GENE1", "5"]]);
    let stats = table(&[&["id", "score"], &["GENE1", "0.01"]]);
    let lines = merge_tables(&primary, &stats, "id", "stats").unwrap();
    assert_eq!(lines[0], "region\tgene\tval\tstats_id\tstats_score");
    assert_eq!(lines[1], "chr1:1-2\tGENE1\t5\tGENE1\t0.01");
    assert_eq!(lines.len(), 2);
}

#[test]
fn join_pads_an_unmatched_key() {
    let primary = table(&[&["region", "gene", "val"], &["chr1:1-2", "GENE2", "5"]]);
    let stats = table(&[&["id", "score"], &["GENE1", "0.01"]]);
    let lines = merge_tables(&primary, &stats, "id", "stats").unwrap();
    assert_eq!(lines[1], "chr1:1-2\tGENE2\t5\tna\tna");
}

#[test]
fn join_runs_are_identical() {
    let primary = table(&[&["region", "gene", "val"], &["chr1:1-2", "GENE1", "5"], &[
        "chr2:3-4", "GENE9", "7",
    ]]);
    let stats = table(&[&["id", "score"], &["GENE1", "0.01"]]);
    let once = render_lines(&merge_tables(&primary, &stats, "id", "stats").unwrap());
    let twice = render_lines(&merge_tables(&primary, &stats, "id", "stats").unwrap());
    assert_eq!(once, twice);
    assert_eq!(once, "region\tgene\tval\tstats_id\tstats_score\nchr1:1-2\tGENE1\t5\tGENE1\t0.01\nchr2:3-4\tGENE9\t7\tna\tna\n");
}

#[test]
fn join_takes_a_numeric_key_column() {
    let primary = table(&[&["region", "gene"], &["chr1:1-2", "G"]]);
    let stats = table(&[&["name", "G_id", "p"], &["x", "G", "0.5"]]);
    let lines = merge_tables(&primary, &stats, "1", "s").unwrap();
    assert_eq!(lines[1], "chr1:1-2\tG\tx\tG\t0.5");
}

#[test]
fn duplicate_keys_keep_the_last_row() {
    let primary = table(&[&["region", "gene"], &["r", "G"]]);
    let stats = table(&[&["id", "v"], &["G", "first"], &["G", "second"]]);
    let lines = merge_tables(&primary, &stats, "id", "s").unwrap();
    assert_eq!(lines[1], "r\tG\tG\tsecond");
}

#[test]
fn missing_column_name_fails() {
    let primary = table(&[&["region", "gene"], &["r", "G"]]);
    let stats = table(&[&["id", "v"], &["G", "1"]]);
    assert_eq!(merge_tables(&primary, &stats, "nope", "s"), Err(TableError::ColumnNotFound));
}

#[test]
fn short_stats_row_fails() {
    let primary = table(&[&["region", "gene"], &["r", "G"]]);
    let stats = table(&[&["id", "v", "w"], &["G", "1", "2"], &["H"]]);
    assert_eq!(merge_tables(&primary, &stats, "2", "s"), Err(TableError::InsufficientColumns));
}

#[test]
fn na_padding_is_as_wide_as_the_stats_header() {
    assert_eq!(na_fields(3), vec!["na".to_string(), "na".to_string(), "na".to_string()]);
    assert!(na_fields(0).is_empty());
}

#[test]
fn basename_takes_the_suffix_after_the_last_separator() {
    assert_eq!(file_basename("dir/sub/stats.tsv.gz"), "stats.tsv.gz");
    assert_eq!(file_basename("stats.tsv"), "stats.tsv");
    assert_eq!(file_basename("dir/"), "");
}
