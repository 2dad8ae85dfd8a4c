use mergebams::diff::count_discrepancies;
use mergebams::diff::names_equal;
use mergebams::header::checkheaders;
use mergebams::header::Header;

fn names(v: &[&str]) -> Vec<String> {
    v.iter().map(|s| s.to_string()).collect()
}

fn header(refs: &[&str]) -> Header {
    Header {
        ref_names: names(refs),
        ref_lens: refs.iter().map(|_| 1000).collect(),
        lines: names(&["@HD\tVN:1.6"]),
    }
}

#[test]
fn equal_catalogues_have_no_discrepancy() {
    let a = names(&["chr1", "chr2"]);
    let b = names(&["chr1", "chr2"]);
    assert!(names_equal(&a, &b));
    assert_eq!(count_discrepancies(&a, &b), 0);
}

#[test]
fn one_replacement_is_one_span() {
    let a = names(&["chr1", "chr2", "chr3"]);
    let b = names(&["chr1", "chrX", "chr3"]);
    assert_eq!(count_discrepancies(&a, &b), 1);
}

#[test]
fn two_separate_replacements_are_two_spans() {
    let a = names(&["chr1", "a", "chr2", "b", "chr3"]);
    let b = names(&["chr1", "x", "chr2", "y", "chr3"]);
    assert_eq!(count_discrepancies(&a, &b), 2);
}

#[test]
fn one_insertion_is_one_span() {
    let a = names(&["chr1"]);
    let b = names(&["chr1", "chr2"]);
    assert_eq!(count_discrepancies(&a, &b), 1);
}

#[test]
fn empty_against_nonempty_is_one_span() {
    let a = names(&[]);
    let b = names(&["chr1"]);
    assert_eq!(count_discrepancies(&a, &b), 1);
    assert_eq!(count_discrepancies(&a, &a), 0);
}

#[test]
fn matching_headers_reconcile() {
    let headers = vec![header(&["chr1"]), header(&["chr1"])];
    let paths = names(&["a.bam", "b.bam"]);
    let (merged, reports) = checkheaders(&headers, &paths).ok().unwrap();
    assert_eq!(merged.ref_names, names(&["chr1"]));
    assert_eq!(merged.ref_lens, vec![1000]);
    assert_eq!(merged.lines.len(), 2);
    assert_eq!(merged.lines[0], "@HD\tVN:1.6".to_string());
    assert_eq!(
        merged.lines[1],
        "@CO\tmergebams has included the BAM records from the following files (using the header from the first): a.bam, b.bam".to_string()
    );
    assert_eq!(reports.len(), 1);
    assert_eq!(reports[0].left, 0);
    assert_eq!(reports[0].right, 1);
    assert_eq!(reports[0].count, 0);
}

#[test]
fn three_matching_inputs_join_all_paths() {
    let headers = vec![header(&["chr1"]), header(&["chr1"]), header(&["chr1"])];
    let paths = names(&["a.bam", "b.bam", "c.bam"]);
    let (merged, reports) = checkheaders(&headers, &paths).ok().unwrap();
    assert_eq!(
        merged.lines[1],
        "@CO\tmergebams has included the BAM records from the following files (using the header from the first): a.bam, b.bam, c.bam".to_string()
    );
    assert_eq!(reports.len(), 3);
}

#[test]
fn differing_headers_fail() {
    let headers = vec![header(&["chr1"]), header(&["chr2"])];
    let paths = names(&["a.bam", "b.bam"]);
    let err = checkheaders(&headers, &paths).err().unwrap();
    assert_eq!(err.reports.len(), 1);
    assert!(err.reports[0].count >= 1);
}

#[test]
fn single_inserted_entry_fails_every_touched_pair() {
    // Two inputs agree; a third carries one extra inserted entry. The
    // exhaustive pairwise check reports both pairs that touch the third.
    let headers = vec![
        header(&["chr1", "chr2"]),
        header(&["chr1", "chr2"]),
        header(&["chr1", "chrX", "chr2"]),
    ];
    let paths = names(&["a.bam", "b.bam", "c.bam"]);
    let err = checkheaders(&headers, &paths).err().unwrap();
    assert_eq!(err.reports.len(), 3);
    // pair (0, 1) matches
    assert_eq!(err.reports[0].left, 0);
    assert_eq!(err.reports[0].right, 1);
    assert_eq!(err.reports[0].count, 0);
    // pair (0, 2) sees the inserted entry
    assert_eq!(err.reports[1].left, 0);
    assert_eq!(err.reports[1].right, 2);
    assert!(err.reports[1].count >= 1);
    // pair (1, 2) sees it too
    assert_eq!(err.reports[2].left, 1);
    assert_eq!(err.reports[2].right, 2);
    assert!(err.reports[2].count >= 1);
}
