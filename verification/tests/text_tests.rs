use chipscraft::chat::wrap_and_clean;
use chipscraft::strutil::{parse_i16, parse_u8, fmt_i16, join_spaces};
use chipscraft::session::split_spaces;

/// The rendered text of a chat line: color codes, spaces and line breaks
/// dropped.
fn strip(s: &str) -> String {
    let cs: Vec<char> = s.chars().collect();
    let mut out = String::new();
    let mut i = 0;
    while i < cs.len() {
        if cs[i] == '&' && i + 1 < cs.len() && cs[i + 1].is_ascii_hexdigit() {
            i += 2;
            continue;
        }
        if cs[i] != ' ' && cs[i] != '\n' {
            out.push(cs[i]);
        }
        i += 1;
    }
    out
}

#[test]
fn short_messages_stay_on_one_line() {
    let lines = wrap_and_clean("hello world", 'f');
    assert_eq!(lines, vec![String::from("hello world")]);
}

#[test]
fn lines_never_exceed_sixty_four_characters() {
    let long: String = std::iter::repeat("word ").take(40).collect();
    let lines = wrap_and_clean(&long, 'f');
    assert!(lines.len() >= 2);
    for line in &lines {
        assert!(line.chars().count() <= 64);
        assert!(!line.contains('\n'));
    }
}

#[test]
fn color_codes_carry_over_line_breaks() {
    // enough colored words that the rendered text must wrap once
    let msg: String = std::iter::repeat("&chello world ").take(7).collect();
    let lines = wrap_and_clean(&msg, 'f');
    assert_eq!(lines.len(), 2);
    for line in &lines {
        assert!(line.starts_with("&c"), "line {:?} must reopen the color", line);
        assert!(line.chars().count() <= 64);
    }
    let visible: String = lines.iter().map(|l| strip(l)).collect();
    assert_eq!(visible, strip(&msg));
}

#[test]
fn wrapping_drops_only_the_break_spaces() {
    // single spaces throughout: re-seaming the lines with one space
    // restores the message exactly
    let words: Vec<String> = (0..30).map(|i| format!("word{}", i)).collect();
    let msg = words.join(" ");
    let lines = wrap_and_clean(&msg, 'f');
    assert!(lines.len() >= 2);
    assert_eq!(lines.join(" "), msg);
}

#[test]
fn visible_text_survives_wrapping() {
    let msg: String = std::iter::repeat("lorem ipsum dolor sit amet ").take(8).collect();
    let lines = wrap_and_clean(&msg, 'e');
    let visible: String = lines.iter().map(|l| strip(l)).collect();
    assert_eq!(visible, strip(&msg));
}

#[test]
fn newlines_split_lines() {
    let lines = wrap_and_clean("one\ntwo", 'e');
    assert_eq!(lines, vec![String::from("one"), String::from("two")]);
}

#[test]
fn newlines_reopen_a_changed_color() {
    let lines = wrap_and_clean("&cone\ntwo", 'e');
    assert_eq!(lines, vec![String::from("&cone"), String::from("&ctwo")]);
}

#[test]
fn redundant_color_codes_are_dropped() {
    let lines = wrap_and_clean("&ffine", 'f');
    assert_eq!(lines, vec![String::from("fine")]);
}

#[test]
fn parse_i16_matches_the_standard_grammar() {
    assert_eq!(parse_i16("0"), Some(0));
    assert_eq!(parse_i16("+17"), Some(17));
    assert_eq!(parse_i16("-32768"), Some(-32768));
    assert_eq!(parse_i16("32767"), Some(32767));
    assert_eq!(parse_i16("32768"), None);
    assert_eq!(parse_i16("-32769"), None);
    assert_eq!(parse_i16(""), None);
    assert_eq!(parse_i16("-"), None);
    assert_eq!(parse_i16("12a"), None);
    assert_eq!(parse_i16("999999999999"), None);
    // agreement with the standard library on a few samples
    for sample in ["5", "-5", "+005", "32768", "007", "1 2"] {
        assert_eq!(parse_i16(sample), sample.parse::<i16>().ok());
    }
}

#[test]
fn parse_u8_matches_the_standard_grammar() {
    assert_eq!(parse_u8("0"), Some(0));
    assert_eq!(parse_u8("255"), Some(255));
    assert_eq!(parse_u8("256"), None);
    assert_eq!(parse_u8("-1"), None);
    assert_eq!(parse_u8(""), None);
    for sample in ["49", "+49", "260", "2x"] {
        assert_eq!(parse_u8(sample), sample.parse::<u8>().ok());
    }
}

#[test]
fn fmt_i16_prints_decimals() {
    assert_eq!(fmt_i16(0), "0");
    assert_eq!(fmt_i16(7), "7");
    assert_eq!(fmt_i16(-123), "-123");
    assert_eq!(fmt_i16(32767), "32767");
    assert_eq!(fmt_i16(-32768), "-32768");
}

#[test]
fn split_and_join_are_inverse() {
    let words = split_spaces("/tp 1  2 3");
    assert_eq!(
        words,
        vec![
            String::from("/tp"),
            String::from("1"),
            String::from(""),
            String::from("2"),
            String::from("3"),
        ]
    );
    assert_eq!(join_spaces(&words), "/tp 1  2 3");
    assert_eq!(split_spaces(""), vec![String::from("")]);
}
