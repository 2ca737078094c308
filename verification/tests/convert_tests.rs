use lrctool::TimedRecord;
use lrctool::convert_to_ass;
use lrctool::convert_to_srt;
use lrctool::parse_lrc;

const INPUT: &str = "[00:00:01.500]Alice\tHello world\n[00:00:04.200]Bob\tHi there";

#[test]
fn srt_end_to_end() {
    let recs = parse_lrc(INPUT);
    let srt = convert_to_srt(&recs);
    assert_eq!(
        srt,
        "1\n00:00:01,500 --> 00:00:04,200\nAlice: Hello world\n\n2\n00:00:04,200 --> 00:00:07,200\nBob: Hi there\n\n"
    );
}

#[test]
fn srt_index_increments() {
    let recs = parse_lrc("[00:00:01.000]a\tx\n[00:00:02.000]b\ty\n[00:00:03.000]c\tz");
    let srt = convert_to_srt(&recs);
    let blocks: Vec<&str> = srt.split("\n\n").filter(|b| !b.is_empty()).collect();
    assert_eq!(blocks.len(), 3);
    assert!(blocks[0].starts_with("1\n"));
    assert!(blocks[1].starts_with("2\n"));
    assert!(blocks[2].starts_with("3\n"));
}

#[test]
fn srt_defensive_fallback_without_end() {
    let recs = vec![TimedRecord {
        timestamp_text: String::from("00:00:02.000"),
        speaker: String::from("A"),
        text: String::from("x"),
        start_ms: 2000,
        end_ms: None,
    }];
    let srt = convert_to_srt(&recs);
    assert_eq!(srt, "1\n00:00:02,000 --> 00:00:05,000\nA: x\n\n");
}

#[test]
fn ass_end_to_end() {
    let recs = parse_lrc(INPUT);
    let ass = convert_to_ass(&recs);
    assert!(ass.contains(
        "Dialogue: 0,0:00:01.50,0:00:04.20,Default,,0,0,0,,{\\c&H00ffff&}Alice{\\c&Hffffff&}: Hello world\n"
    ));
    assert!(ass.contains(
        "Dialogue: 0,0:00:04.20,0:00:07.20,Default,,0,0,0,,{\\c&H00ffff&}Bob{\\c&Hffffff&}: Hi there\n"
    ));
}

#[test]
fn ass_colour_tag_in_every_event_line() {
    let recs = parse_lrc("[00:00:01.000]a\tx\n[00:00:02.000]b\ty\n[00:00:03.000]c\tz");
    let ass = convert_to_ass(&recs);
    for line in ass.lines() {
        if line.starts_with("Dialogue:") {
            assert!(line.contains("{\\c&H00ffff&}"));
            assert!(line.contains("{\\c&Hffffff&}: "));
        }
    }
    assert_eq!(ass.matches("{\\c&H00ffff&}").count(), 3);
}

#[test]
fn ass_header_structure() {
    let recs = parse_lrc(INPUT);
    let ass = convert_to_ass(&recs);
    assert!(ass.starts_with("[Script Info]\n"));
    assert!(ass.contains("ScriptType: v4.00+\n"));
    assert!(ass.contains("[V4+ Styles]\n"));
    assert!(ass.contains(
        "Style: Default,Arial,16,&Hffffff,&Hffffff,&H0,&H0,0,0,0,0,100,100,0,0,1,2,0,2,10,10,10,1\n"
    ));
    assert!(ass.contains("[Events]\n"));
    assert!(ass.contains(
        "Format: Layer, Start, End, Style, Name, MarginL, MarginR, MarginV, Effect, Text\n"
    ));
}

#[test]
fn empty_input_empty_outputs() {
    let recs = parse_lrc("");
    assert!(recs.is_empty());
    let srt = convert_to_srt(&recs);
    assert_eq!(srt, "");
    let ass = convert_to_ass(&recs);
    // Header only: no dialogue events at all.
    assert!(ass.starts_with("[Script Info]\n"));
    assert!(!ass.contains("Dialogue:"));
    assert!(ass.ends_with(
        "Format: Layer, Start, End, Style, Name, MarginL, MarginR, MarginV, Effect, Text\n"
    ));
}
