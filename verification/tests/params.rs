use mergebams::Params;

fn with_threads(threads: usize) -> Params {
    Params {
        inputs: vec!["a.bam".to_string(), "b.bam".to_string()],
        output: "out.bam".to_string(),
        threads,
    }
}

#[test]
fn small_hints_request_no_extra_threads() {
    assert_eq!(with_threads(1).thread_split(), (0, 0));
    assert_eq!(with_threads(2).thread_split(), (0, 0));
    assert_eq!(with_threads(3).thread_split(), (0, 0));
}

#[test]
fn large_hints_split_between_reading_and_writing() {
    assert_eq!(with_threads(4).thread_split(), (1, 1));
    assert_eq!(with_threads(8).thread_split(), (3, 3));
    assert_eq!(with_threads(9).thread_split(), (3, 3));
}
