use mergebams::engine::merge_records;
use mergebams::engine::process_record;
use mergebams::engine::Counters;
use mergebams::engine::TagValue;
use mergebams::header::checkheaders;
use mergebams::header::Header;

fn names(v: &[&str]) -> Vec<String> {
    v.iter().map(|s| s.to_string()).collect()
}

#[test]
fn two_inputs_disambiguate_identifiers() {
    // Two inputs with identical single-entry catalogues; one record each.
    let headers = vec![
        Header { ref_names: names(&["chr1"]), ref_lens: vec![1000], lines: vec![] },
        Header { ref_names: names(&["chr1"]), ref_lens: vec![1000], lines: vec![] },
    ];
    let paths = names(&["a.bam", "b.bam"]);
    assert!(checkheaders(&headers, &paths).is_ok());

    let inputs = vec![
        vec![TagValue::Str(b"AAAC-1".to_vec())],
        vec![TagValue::Str(b"AAAC".to_vec())],
    ];
    let (out, counters) = merge_records(&inputs);
    assert_eq!(out.len(), 2);
    assert_eq!(out[0].cb, b"AAAC-1".to_vec());
    assert_eq!(out[1].cb, b"AAAC-2".to_vec());
    assert_eq!(counters.pass, 2);
    assert_eq!(counters.other, 0);
    assert_eq!(counters.fail, 0);
}

#[test]
fn missing_identifier_is_dropped() {
    let inputs = vec![vec![TagValue::Absent]];
    let (out, counters) = merge_records(&inputs);
    assert_eq!(out.len(), 0);
    assert_eq!(counters.pass, 0);
    assert_eq!(counters.other, 0);
    assert_eq!(counters.fail, 1);
}

#[test]
fn char_identifier_counts_as_other() {
    let inputs = vec![vec![TagValue::Ch(b'A')]];
    let (out, counters) = merge_records(&inputs);
    assert_eq!(out.len(), 1);
    assert_eq!(out[0].cb, b"A-1".to_vec());
    assert_eq!(counters.pass, 0);
    assert_eq!(counters.other, 1);
    assert_eq!(counters.fail, 0);
}

#[test]
fn counters_partition_the_records() {
    let inputs = vec![
        vec![
            TagValue::Str(b"AAAC".to_vec()),
            TagValue::Absent,
            TagValue::Ch(b'G'),
        ],
        vec![TagValue::Str(b"GGTT-4".to_vec()), TagValue::Absent],
    ];
    let (out, counters) = merge_records(&inputs);
    assert_eq!(counters.pass, 2);
    assert_eq!(counters.other, 1);
    assert_eq!(counters.fail, 2);
    assert_eq!(counters.pass + counters.other + counters.fail, 5);
    assert_eq!(out.len() as u64, counters.pass + counters.other);
}

#[test]
fn output_keeps_input_and_stream_order() {
    let inputs = vec![
        vec![
            TagValue::Str(b"A".to_vec()),
            TagValue::Absent,
            TagValue::Str(b"B".to_vec()),
        ],
        vec![TagValue::Str(b"C".to_vec())],
    ];
    let (out, _) = merge_records(&inputs);
    assert_eq!(out.len(), 3);
    assert_eq!((out[0].input, out[0].index), (0, 0));
    assert_eq!((out[1].input, out[1].index), (0, 2));
    assert_eq!((out[2].input, out[2].index), (1, 0));
    assert_eq!(out[0].cb, b"A-1".to_vec());
    assert_eq!(out[1].cb, b"B-1".to_vec());
    assert_eq!(out[2].cb, b"C-2".to_vec());
}

#[test]
fn positional_suffix_replaces_existing_run() {
    let inputs = vec![
        vec![TagValue::Str(b"TTTG-1".to_vec())],
        vec![TagValue::Str(b"TTTG-1".to_vec())],
        vec![TagValue::Str(b"TTTG-1".to_vec())],
    ];
    let (out, _) = merge_records(&inputs);
    assert_eq!(out[0].cb, b"TTTG-1".to_vec());
    assert_eq!(out[1].cb, b"TTTG-2".to_vec());
    assert_eq!(out[2].cb, b"TTTG-3".to_vec());
}

#[test]
fn process_record_streams_one_at_a_time() {
    let mut counters = Counters { pass: 0, other: 0, fail: 0 };
    let suffix = b"-2".to_vec();
    let kept = process_record(&TagValue::Str(b"AAAC-1".to_vec()), &suffix, &mut counters);
    assert_eq!(kept, Some(b"AAAC-2".to_vec()));
    let dropped = process_record(&TagValue::Absent, &suffix, &mut counters);
    assert_eq!(dropped, None);
    let flagged = process_record(&TagValue::Ch(b'T'), &suffix, &mut counters);
    assert_eq!(flagged, Some(b"T-2".to_vec()));
    assert_eq!(counters.pass, 1);
    assert_eq!(counters.other, 1);
    assert_eq!(counters.fail, 1);
}
