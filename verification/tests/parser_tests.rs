use lrctool::parse_records;

#[test]
fn parser_extracts_fields() {
    let recs = parse_records("[00:00:01.500]Alice\tHello world");
    assert_eq!(recs.len(), 1);
    assert_eq!(recs[0].timestamp_text, "00:00:01.500");
    assert_eq!(recs[0].speaker, "Alice");
    assert_eq!(recs[0].text, "Hello world");
    assert_eq!(recs[0].start_ms, 1500);
    assert!(recs[0].end_ms.is_none());
}

#[test]
fn parser_counts_matching_lines() {
    // Three matching lines among four non-matching ones, interleaved.
    let input = "a comment\n[00:00:01.000]A\tone\nnoise\n[00:00:02.000]B\ttwo\n\nmore noise\n[00:00:03.000]C\tthree";
    let recs = parse_records(input);
    assert_eq!(recs.len(), 3);
    assert_eq!(recs[0].speaker, "A");
    assert_eq!(recs[1].speaker, "B");
    assert_eq!(recs[2].speaker, "C");
}

#[test]
fn parser_skips_malformed_lines() {
    // Missing tab, missing brackets, non-digit timestamp characters.
    let input = "[00:00:01.500]NoTabHere\n00:00:01.500]X\tY\n[00:0a:01.500]X\tY\n[00:00:01.500]\tY\n[00:00:01.500]X\t";
    let recs = parse_records(input);
    assert_eq!(recs.len(), 0);
}

#[test]
fn parser_trims_speaker_and_text() {
    let recs = parse_records("[00:00:01.000]  Alice  \t  Hello there  ");
    assert_eq!(recs.len(), 1);
    assert_eq!(recs[0].speaker, "Alice");
    assert_eq!(recs[0].text, "Hello there");
}

#[test]
fn parser_fraction_counts_hundredths() {
    // Only the first two fraction digits carry weight, as hundredths.
    let recs = parse_records("[00:00:00.567]A\tb");
    assert_eq!(recs.len(), 1);
    assert_eq!(recs[0].start_ms, 560);
}

#[test]
fn parser_match_anywhere_in_line() {
    let recs = parse_records("prefix [00:00:02.000]Bob\tHi");
    assert_eq!(recs.len(), 1);
    assert_eq!(recs[0].speaker, "Bob");
    assert_eq!(recs[0].start_ms, 2000);
}

#[test]
fn parser_content_may_contain_tabs() {
    // The speaker ends at the first tab; the rest is content as it stands.
    let recs = parse_records("[00:00:01.000]A\tB\tC");
    assert_eq!(recs.len(), 1);
    assert_eq!(recs[0].speaker, "A");
    assert_eq!(recs[0].text, "B\tC");
}

#[test]
fn parser_handles_crlf_lines() {
    let recs = parse_records("[00:00:01.000]A\tone\r\n[00:00:02.000]B\ttwo\r\n");
    assert_eq!(recs.len(), 2);
    assert_eq!(recs[0].text, "one");
    assert_eq!(recs[1].text, "two");
}

#[test]
fn parser_empty_input() {
    let recs = parse_records("");
    assert_eq!(recs.len(), 0);
}
