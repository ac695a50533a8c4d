use portfolio::ansi::{colorize, has_escape, Color};

#[test]
fn test_regex() {
    let test_string = "error: Found argument \'--hel\' which wasn\'t expected, or isn\'t valid in this context\n\tDid you mean \u{1b}[32m--\u{1b}[0m\u{1b}[32mhelp\u{1b}[0m?\n\nUSAGE:\n    portfolio --help\n\nFor more information try --help";
    assert!(has_escape(test_string));
    for seg in colorize(test_string) {
        if seg.color != Color::Default {
            println!("{}", seg.text);
        }
    }
}

#[test]
fn plain_text_is_one_default_segment() {
    let segs = colorize("plain text");
    assert_eq!(segs.len(), 1);
    assert_eq!(segs[0].color, Color::Default);
    assert_eq!(segs[0].text, "plain\u{a0}text");
}

#[test]
fn empty_text_has_no_segments() {
    assert_eq!(colorize("").len(), 0);
}

#[test]
fn red_run_between_escape_and_reset() {
    let segs = colorize("\u{1b}[31merr\u{1b}[0m");
    assert_eq!(segs.len(), 1);
    assert_eq!(segs[0].color, Color::Red);
    assert_eq!(segs[0].text, "err");
}

#[test]
fn color_applies_only_after_its_sequence() {
    let segs = colorize("pre\u{1b}[33mwarn");
    assert_eq!(segs.len(), 2);
    assert_eq!(segs[0].color, Color::Default);
    assert_eq!(segs[0].text, "pre");
    assert_eq!(segs[1].color, Color::Yellow);
    assert_eq!(segs[1].text, "warn");
}

#[test]
fn unknown_code_closes_the_run() {
    let segs = colorize("\u{1b}[31ma\u{1b}[39mb");
    assert_eq!(segs.len(), 2);
    assert_eq!(segs[0].color, Color::Red);
    assert_eq!(segs[0].text, "a");
    assert_eq!(segs[1].color, Color::Default);
    assert_eq!(segs[1].text, "b");
}

#[test]
fn two_part_code_uses_the_first_number() {
    let segs = colorize("\u{1b}[1;32mX");
    assert_eq!(segs.len(), 1);
    assert_eq!(segs[0].color, Color::Default);
    assert_eq!(segs[0].text, "X");
    let segs = colorize("\u{1b}[32;1mY");
    assert_eq!(segs.len(), 1);
    assert_eq!(segs[0].color, Color::Green);
    assert_eq!(segs[0].text, "Y");
}

#[test]
fn three_digit_code_is_not_an_escape() {
    assert!(!has_escape("\u{1b}[132m"));
    let segs = colorize("\u{1b}[132m");
    assert_eq!(segs.len(), 1);
    assert_eq!(segs[0].color, Color::Default);
    assert_eq!(segs[0].text, "\u{1b}[132m");
}

#[test]
fn whitespace_is_substituted_for_display() {
    let segs = colorize("a\tb\nc d");
    assert_eq!(segs.len(), 1);
    assert_eq!(segs[0].text, "a\u{a0}\u{a0}\u{a0}\u{a0}b\nc\u{a0}d");
}

#[test]
fn concatenated_segment_texts_lose_nothing() {
    let segs = colorize("\u{1b}[32mok\u{1b}[0m done");
    let joined: String = segs.iter().map(|s| s.text.as_str()).collect::<Vec<_>>().join("");
    assert_eq!(joined, "ok\u{a0}done");
}

#[test]
fn multibyte_text_is_never_split() {
    let segs = colorize("\u{1b}[31mhéllo wörld 漢字\u{1b}[0m");
    assert_eq!(segs.len(), 1);
    assert_eq!(segs[0].color, Color::Red);
    assert_eq!(segs[0].text, "héllo\u{a0}wörld\u{a0}漢字");
}

#[test]
fn green_suggestion_in_clap_style_message() {
    let segs = colorize("Did you mean \u{1b}[32m--\u{1b}[0m\u{1b}[32mhelp\u{1b}[0m?");
    let greens: Vec<String> =
        segs.iter().filter(|s| s.color == Color::Green).map(|s| s.text.clone()).collect();
    assert_eq!(greens, vec!["--".to_string(), "help".to_string()]);
}
