use regionomics::BedEntry;
use regionomics::annotate::{
    annotate_all, annotate_entry, annotator_header, query_genes, query_window, Gene,
};

#[test]
fn padding_is_clamped_at_zero() {
    assert_eq!(query_window(10, 30, 50), (0, 80));
    assert_eq!(query_window(100, 200, 50), (50, 250));
    assert_eq!(query_window(5, 5, 5), (0, 10));
}

#[test]
fn annotator_emits_the_distance_row() {
    let entry = BedEntry { chr: "chr1".to_string(), start: 100, end: 200 };
    let genes = vec![Gene { gene_name: "G1".to_string(), start: 80, end: 260 }];
    let rows = annotate_entry(&entry, &genes);
    assert_eq!(rows, vec!["chr1:100-200\tG1\t70\t80\t260".to_string()]);
}

#[test]
fn distance_is_signed() {
    let entry = BedEntry { chr: "c".to_string(), start: 0, end: 10 };
    let genes = vec![Gene { gene_name: "g".to_string(), start: 30, end: 40 }];
    let rows = annotate_entry(&entry, &genes);
    assert_eq!(rows, vec!["c:0-10\tg\t-25\t30\t40".to_string()]);
}

#[test]
fn failed_queries_are_skipped() {
    let entries = vec![
        BedEntry { chr: "chr1".to_string(), start: 100, end: 200 },
        BedEntry { chr: "chr2".to_string(), start: 0, end: 10 },
    ];
    let results = vec![
        Some(vec![
            Gene { gene_name: "A".to_string(), start: 90, end: 100 },
            Gene { gene_name: "B".to_string(), start: 160, end: 300 },
        ]),
        None,
    ];
    let (lines, count) = annotate_all(&entries, &results);
    assert_eq!(count, 2);
    assert_eq!(lines, vec![
        "chr1:100-200\tA\t60\t90\t100".to_string(),
        "chr1:100-200\tB\t-10\t160\t300".to_string(),
    ]);
}

#[test]
fn query_returns_intersecting_genes_in_order() {
    let records = vec![
        ("chr1".to_string(), Gene { gene_name: "in1".to_string(), start: 40, end: 60 }),
        ("chr2".to_string(), Gene { gene_name: "other_chr".to_string(), start: 40, end: 60 }),
        ("chr1".to_string(), Gene { gene_name: "before".to_string(), start: 0, end: 49 }),
        ("chr1".to_string(), Gene { gene_name: "after".to_string(), start: 251, end: 300 }),
        ("chr1".to_string(), Gene { gene_name: "in2".to_string(), start: 250, end: 400 }),
    ];
    let hits = query_genes(&records, "chr1", 50, 250);
    let names: Vec<String> = hits.iter().map(|g| g.gene_name.clone()).collect();
    assert_eq!(names, vec!["in1".to_string(), "in2".to_string()]);
}

#[test]
fn header_is_fixed() {
    assert_eq!(annotator_header(), "bed_region\tgene_name\tdistance_to_bed_center\tstart\tend");
}
