use spottedcat::csv::{read_csv, read_keyed_csv, read_single_row_csv, split_csv_line, CsvError};
use spottedcat::profile::{csv_field, gpu_timestamp_span_ticks, switch_enabled, ProfileProgress, ProfileSchedule};

#[test]
fn csv_parser_handles_quoted_commas_and_quotes() {
    assert_eq!(
        split_csv_line("\"a,b\",\"c\"\"d\",1"),
        vec!["a,b", "c\"d", "1"]
    );
}

#[test]
fn csv_field_escapes_quotes() {
    assert_eq!(csv_field("a\"b"), "\"a\"\"b\"");
}

#[test]
fn gpu_timestamp_span_does_not_double_count_overlapping_passes() {
    let mut bytes = Vec::new();
    for timestamp in [100u64, 200, 150, 260, 0, 0, 300, 250] {
        bytes.extend_from_slice(&timestamp.to_le_bytes());
    }
    assert_eq!(gpu_timestamp_span_ticks(&bytes), Some(160));
    assert_eq!(gpu_timestamp_span_ticks(&[]), None);
}

#[test]
fn gpu_timestamp_span_single_pass() {
    let mut bytes = Vec::new();
    for timestamp in [1000u64, 1750] {
        bytes.extend_from_slice(&timestamp.to_le_bytes());
    }
    assert_eq!(gpu_timestamp_span_ticks(&bytes), Some(750));
}

#[test]
fn gpu_timestamp_span_ignores_trailing_partial_pass() {
    let mut bytes = Vec::new();
    for timestamp in [10u64, 30] {
        bytes.extend_from_slice(&timestamp.to_le_bytes());
    }
    bytes.extend_from_slice(&[1, 2, 3]);
    assert_eq!(gpu_timestamp_span_ticks(&bytes), Some(20));
}

#[test]
fn gpu_timestamp_span_of_only_invalid_passes_is_none() {
    let mut bytes = Vec::new();
    for timestamp in [0u64, 9, 7, 3] {
        bytes.extend_from_slice(&timestamp.to_le_bytes());
    }
    assert_eq!(gpu_timestamp_span_ticks(&bytes), None);
    let mut zero_length = Vec::new();
    for timestamp in [5u64, 5] {
        zero_length.extend_from_slice(&timestamp.to_le_bytes());
    }
    assert_eq!(gpu_timestamp_span_ticks(&zero_length), Some(0));
}

#[test]
fn csv_field_without_quotes_is_wrapped() {
    assert_eq!(csv_field("frame,ms"), "\"frame,ms\"");
    assert_eq!(csv_field(""), "\"\"");
}

#[test]
fn csv_field_reads_back_as_one_field() {
    for value in ["a\"b", "x,y", "\"\"", "", "plain"] {
        assert_eq!(split_csv_line(&csv_field(value)), vec![value]);
    }
}

#[test]
fn split_csv_line_keeps_empty_fields() {
    assert_eq!(split_csv_line(",a,"), vec!["", "a", ""]);
    assert_eq!(split_csv_line(""), vec![""]);
}

#[test]
fn read_csv_pairs_names_with_fields() {
    let rows = read_csv("name,ms\nclear,1.5\n\ndraw,2\n").unwrap();
    assert_eq!(rows.len(), 2);
    assert_eq!(rows[0], vec![("name".to_string(), "clear".to_string()), ("ms".to_string(), "1.5".to_string())]);
    assert_eq!(rows[1][0].1, "draw");
}

#[test]
fn read_csv_of_empty_text_is_an_error() {
    assert_eq!(read_csv(""), Err(CsvError::Empty));
}

#[test]
fn read_single_row_csv_needs_a_row() {
    assert_eq!(read_single_row_csv("a,b\n"), Err(CsvError::NoDataRows));
    let row = read_single_row_csv("a,b\n1,2\n3,4\n").unwrap();
    assert_eq!(row, vec![("a".to_string(), "1".to_string()), ("b".to_string(), "2".to_string())]);
}

#[test]
fn read_keyed_csv_keeps_last_row_per_key() {
    let table = read_keyed_csv("k,v\nx,1\ny,2\nx,3\n", "k").unwrap();
    assert_eq!(table.len(), 2);
    let x = table.iter().find(|(k, _)| k == "x").unwrap();
    assert_eq!(x.1[1].1, "3");
}

#[test]
fn read_keyed_csv_reports_missing_key() {
    assert_eq!(read_keyed_csv("k,v\n1,2\n", "id"), Err(CsvError::MissingKey));
}

#[test]
fn profile_switch_reads_off_words_as_off() {
    assert!(!switch_enabled(Some(""), true));
    assert!(!switch_enabled(Some(" 0 "), true));
    assert!(!switch_enabled(Some("FALSE"), true));
    assert!(!switch_enabled(Some("Off"), true));
    assert!(!switch_enabled(Some("no\n"), true));
    assert!(switch_enabled(Some("1"), false));
    assert!(switch_enabled(Some("yes"), false));
    assert!(switch_enabled(Some("nope"), false));
    assert!(switch_enabled(None, true));
    assert!(!switch_enabled(None, false));
}

#[test]
fn profile_schedule_keeps_at_least_one_sample() {
    assert_eq!(ProfileSchedule::new(1, 2, 3, 0, false).max_samples, 1);
    assert_eq!(ProfileSchedule::new(1, 2, 3, 7, true).max_samples, 7);
}

#[test]
fn profile_frames_warm_up_sample_report_and_end() {
    let schedule = ProfileSchedule::new(2, 3, 2, 2, true);
    let mut progress = ProfileProgress::new();
    let mut stored: usize = 0;
    let mut decisions = Vec::new();
    for _ in 0..7 {
        let d = progress.record_frame(&schedule, stored);
        if d.drop_oldest {
            stored -= 1;
        }
        if d.take_sample {
            stored += 1;
        }
        decisions.push(d);
    }
    // Frames 1 and 2 warm up; the second announces the end of warm-up.
    assert!(!decisions[0].take_sample && !decisions[0].warmup_done);
    assert!(!decisions[1].take_sample && decisions[1].warmup_done);
    // Frames 3 to 5 are sampled; the ring of two is full at the third sample.
    assert!(decisions[2].take_sample && !decisions[2].print_report && !decisions[2].drop_oldest);
    assert!(decisions[3].take_sample && decisions[3].print_report && !decisions[3].drop_oldest);
    assert!(decisions[4].take_sample && decisions[4].drop_oldest && decisions[4].warn_capacity);
    assert!(decisions[4].exit);
    // Sampling is done: later frames are only counted.
    for d in &decisions[5..] {
        assert!(!d.take_sample && !d.exit && !d.warn_capacity);
    }
    assert_eq!(stored, 2);
    assert_eq!(progress.rendered_frames, 7);
    assert_eq!(progress.sampled_frames, 3);
    assert!(progress.sample_complete);
}
