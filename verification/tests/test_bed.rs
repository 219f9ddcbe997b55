use regionomics::{BedEntry, BedFile};

#[test]
fn load_counts_non_comment_lines() {
    let content = "# a comment\nchr1\t10\t20\nchr2\t5\t15\textra\n# another\nchr3\t0\t1";
    let bf = BedFile::new(content).unwrap();
    assert_eq!(bf.len(), 3);
}

#[test]
fn load_iterates_in_input_order() {
    let content = "chr1\t10\t20\nchr2\t5\t15\n";
    let mut bf = BedFile::new(content).unwrap();
    let first = bf.next().unwrap();
    assert_eq!(first.chr, "chr1");
    assert_eq!(first.start, 10);
    assert_eq!(first.end, 20);
    let second = bf.next().unwrap();
    assert_eq!(second.chr, "chr2");
    assert!(bf.next().is_none());
    assert!(bf.next().is_none());
    assert_eq!(bf.len(), 2);
}

#[test]
fn load_rejects_short_line() {
    let content = "chr1\t10\t20\nchr2\t5\n";
    let err = BedFile::new(content).unwrap_err();
    assert_eq!(err, "Input vector must contain at least 3 elements.");
}

#[test]
fn load_rejects_blank_line() {
    let content = "chr1\t10\t20\n\nchr2\t5\t15\n";
    assert!(BedFile::new(content).is_err());
}

#[test]
fn load_rejects_non_numeric_coordinates() {
    let err = BedFile::new("chr1\tabc\t20\n").unwrap_err();
    assert_eq!(err, "Invalid start value");
    let err = BedFile::new("chr1\t10\txyz\n").unwrap_err();
    assert_eq!(err, "Invalid end value");
}

#[test]
fn from_vec_builds_an_entry() {
    let e = BedEntry::from_vec(vec!["chrX", "3", "9", "ignored"]).unwrap();
    assert_eq!(e.chr, "chrX");
    assert_eq!(e.start, 3);
    assert_eq!(e.end, 9);
}

#[test]
fn entry_renders_as_region_string() {
    let e = BedEntry { chr: "chr1".to_string(), start: 100, end: 200 };
    assert_eq!(e.as_string(), "chr1:100-200");
}
