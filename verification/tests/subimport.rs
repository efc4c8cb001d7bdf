use dub_server::subimport::{parse, read_clock, strip_markup};

#[test]
fn srt_basic() {
    let s = "1\n00:00:01,000 --> 00:00:04,000\nHello world\n\n2\n00:00:05,500 --> 00:00:07,000\nSecond line";
    let c = parse(s, "srt");
    assert_eq!(c.len(), 2);
    assert_eq!(c[0].start, 1_000_000);
    assert_eq!(c[0].end, 4_000_000);
    assert_eq!(c[0].text, "Hello world");
    assert_eq!(c[1].start, 5_500_000);
}

#[test]
fn srt_multiline_and_tags() {
    let s = "1\n00:00:01,000 --> 00:00:02,000\n<i>Line one</i>\nLine two";
    let c = parse(s, "srt");
    assert_eq!(c[0].text, "Line one Line two");
}

#[test]
fn ass_basic() {
    let s = "[Script Info]\nTitle: x\n[Events]\nFormat: Layer, Start, End, Style, Name, MarginL, MarginR, MarginV, Effect, Text\nDialogue: 0,0:00:01.00,0:00:03.50,Default,,0,0,0,,Hello, there {\\i1}world{\\i0}\n";
    let c = parse(s, "ass");
    assert_eq!(c.len(), 1);
    assert_eq!(c[0].start, 1_000_000);
    assert_eq!(c[0].end, 3_500_000);
    assert_eq!(c[0].text, "Hello, there world");
}

#[test]
fn ass_newline() {
    let s = "[Events]\nFormat: Layer, Start, End, Style, Name, MarginL, MarginR, MarginV, Effect, Text\nDialogue: 0,0:00:00.00,0:00:02.00,Default,,0,0,0,,A\\NB\n";
    let c = parse(s, "ass");
    assert_eq!(c[0].text, "A B");
}

#[test]
fn skips_empty_and_bad() {
    let s = "1\n00:00:01,000 --> 00:00:01,000\nzero-length\n\n2\ngarbage\n\n3\n00:00:02,000 --> 00:00:04,000\nok";
    let c = parse(s, "srt");
    assert_eq!(c.len(), 1);
    assert_eq!(c[0].text, "ok");
}

#[test]
fn clocks_are_read() {
    assert_eq!(read_clock("01:02:03.5"), Some(3_723_500_000));
    assert_eq!(read_clock("x:y"), None);
    assert_eq!(strip_markup("a<b>c</b>{\\i1}d"), "acd");
}

#[test]
fn clocks_take_what_a_number_may_be() {
    assert_eq!(read_clock("1e1:+30"), Some(630_000_000));
    assert_eq!(read_clock("0:0:2,5e-1"), Some(2_050_000));
    assert_eq!(read_clock("5e-1:0:0"), Some(1_800_000_000));
    assert_eq!(read_clock("0:01.x"), Some(1_000_000));
    assert_eq!(read_clock("0:01."), Some(1_000_000));
    assert_eq!(read_clock("-1:00"), Some(-60_000_000));
    assert_eq!(read_clock("30000:00:00"), Some(108_000_000_000_000));
    assert_eq!(read_clock("99999999999:00:00"), Some(359_999_999_996_400_000_000));
    assert_eq!(read_clock("1e999:00"), read_clock("inf:00"));
    assert!(read_clock("1e999:00") > read_clock("99999999999:00:00"));
    assert_eq!(read_clock("1e:00"), None);
    assert_eq!(read_clock("12"), None);
}

#[test]
fn what_is_no_subrip_is_read_as_the_other_format() {
    let c = parse("[EVENTS]\nDialogue: 0,0:00:01.00,0:00:02.00,Default,,0,0,0,,Hi\n", "txt");
    assert_eq!(c.len(), 1);
    assert_eq!((c[0].start, c[0].end, c[0].text.as_str()), (1_000_000, 2_000_000, "Hi"));
    assert!(parse("neither", "txt").is_empty());
}

#[test]
fn a_subrip_file_is_read_as_the_other_format_by_its_heading_alone() {
    let capitals = "[EVENTS]\nDialogue: 0,0:00:01.00,0:00:02.00,Default,,0,0,0,,Hi\n";
    assert!(parse(capitals, "srt").is_empty());
    assert!(parse(capitals, "SRT").is_empty());
    assert_eq!(parse(capitals, "").len(), 1);
    let heading = capitals.replace("[EVENTS]", "[Events]");
    assert_eq!(parse(&heading, "srt").len(), 1);
    assert_eq!(told(&heading.replace('\n', "\r\n"), "srt"), told(&heading, "srt"));
}

#[test]
fn late_subtitles_are_kept() {
    let c = parse("30000:00:00,000 --> 30000:00:05,000\nlate", "srt");
    assert_eq!(c.len(), 1);
    assert_eq!((c[0].start, c[0].end), (108_000_000_000_000, 108_000_005_000_000));
    let far = parse("99999999999:00:00,000 --> 99999999999:00:05,000\nlater", "srt");
    assert_eq!(far[0].end - far[0].start, 5_000_000);
}

fn told(content: &str, ext: &str) -> Vec<(i128, i128, String)> {
    parse(content, ext).into_iter().map(|c| (c.start, c.end, c.text)).collect()
}

#[test]
fn marks_returns_and_capitals_change_nothing() {
    let srt = "1\n00:00:05,000 --> 00:00:06,000\nlater\n\n2\n00:00:01,000 --> 00:00:02,000\ntwo\nlines\n";
    let want = vec![
        (1_000_000, 2_000_000, "two lines".to_string()),
        (5_000_000, 6_000_000, "later".to_string()),
    ];
    assert_eq!(told(srt, "srt"), want);
    assert_eq!(told(&format!("\u{feff}{srt}"), "srt"), want);
    assert_eq!(told(&srt.replace('\n', "\r\n"), "SRT"), want);
    let ass = "[Events]\nDialogue: 0,0:00:01.00,0:00:02.00,Default,,0,0,0,,Hi\n";
    assert_eq!(told(ass, "ass"), told(&ass.replace('\n', "\r\n"), "ASS"));
    assert_eq!(told(ass, "Ssa").len(), 1);
}

#[test]
fn stripping_twice_changes_nothing() {
    let once = strip_markup(" {\\b1}a\\Nb  <i>c</i>\\x d{open");
    assert_eq!(once, "a b cx d");
    assert_eq!(strip_markup(&once), once);
    let open = strip_markup("tail <never closed");
    assert_eq!(open, "tail <");
    assert_eq!(strip_markup(&open), open);
}
